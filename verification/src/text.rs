//! Characters, decimal numbers and the few string operations everything else
//! is worded with.

use vstd::prelude::*;

verus! {

/// `String::push`: the character goes onto the end.
pub assume_specification[ String::push ](text: &mut String, c: char)
    ensures
        final(text)@ == old(text)@.push(c),
;

/// Whether a character has the Unicode `White_Space` property.
pub open spec fn white_space(c: char) -> bool {
    ||| '\u{9}' <= c <= '\u{d}'
    ||| c == ' '
    ||| c == '\u{85}'
    ||| c == '\u{a0}'
    ||| c == '\u{1680}'
    ||| '\u{2000}' <= c <= '\u{200a}'
    ||| c == '\u{2028}'
    ||| c == '\u{2029}'
    ||| c == '\u{202f}'
    ||| c == '\u{205f}'
    ||| c == '\u{3000}'
}

/// Whether a character has the Unicode `White_Space` property.
pub fn is_white_space(c: char) -> (white: bool)
    ensures
        white == white_space(c),
{
    ('\u{9}' <= c && c <= '\u{d}') || c == ' ' || c == '\u{85}' || c == '\u{a0}' || c == '\u{1680}'
        || ('\u{2000}' <= c && c <= '\u{200a}') || c == '\u{2028}' || c == '\u{2029}' || c
        == '\u{202f}' || c == '\u{205f}' || c == '\u{3000}'
}

/// What `str`'s `Debug` implementation writes for a text: the text between
/// double quotes, with what needs it escaped.
pub uninterp spec fn debug_form(text: Seq<char>) -> Seq<char>;

/// Whether a character is a printable ASCII one which needs no escape between
/// double quotes.
pub open spec fn plain(c: char) -> bool {
    ' ' <= c && c <= '~' && c != '"' && c != '\\'
}

/// `<str as Debug>::fmt`, through `format!("{:?}")`: what it writes is a
/// function of the text alone. A text of plain characters is written as it is,
/// between double quotes.
#[verifier::external_body]
pub(crate) fn debug_of(text: &str) -> (quoted: String)
    ensures
        quoted@ == debug_form(text@),
        (forall|i: int| 0 <= i < text@.len() ==> plain(#[trigger] text@[i])) ==> quoted@ == seq![
            '"',
        ] + text@ + seq!['"'],
{
    format!("{text:?}")
}

/// What `str::to_lowercase` gives for a text.
pub uninterp spec fn lower_case(text: Seq<char>) -> Seq<char>;

/// `str::to_lowercase`: the Unicode lowercase of the text, a function of the
/// text alone. Of an ASCII text it is the ASCII lowercase.
#[verifier::external_body]
pub(crate) fn lower_case_of(text: &str) -> (lower: String)
    ensures
        lower@ == lower_case(text@),
        (forall|i: int| 0 <= i < text@.len() ==> (#[trigger] text@[i]) < '\u{80}') ==> lower@
            == text@.map_values(|c: char| ascii_lower(c)),
{
    text.to_lowercase()
}

/// What `char::to_lowercase` gives for a character.
pub uninterp spec fn lower_char(c: char) -> Seq<char>;

/// `char::to_lowercase`: the characters a character is in lowercase, a
/// function of the character alone. Of an ASCII character it is the one ASCII
/// lowercase character.
#[verifier::external_body]
pub(crate) fn lower_char_of(c: char) -> (lower: String)
    ensures
        lower@ == lower_char(c),
        c < '\u{80}' ==> lower@ == seq![ascii_lower(c)],
{
    c.to_lowercase().to_string()
}

/// The characters some characters are in lowercase, one by one.
pub open spec fn lower_chars(chars: Seq<char>) -> Seq<char>
    decreases chars.len(),
{
    if chars.len() == 0 {
        chars
    } else {
        lower_chars(chars.drop_last()) + lower_char(chars.last())
    }
}

/// The characters some characters are in lowercase, one by one.
pub fn lower_chars_of(chars: &[char]) -> (lower: String)
    ensures
        lower@ == lower_chars(chars@),
{
    let mut lower = String::new();
    assert(chars@.take(0) == Seq::<char>::empty());
    for i in 0..chars.len()
        invariant
            lower@ == lower_chars(chars@.take(i as int)),
    {
        lower.append(lower_char_of(chars[i]).as_str());
        assert(chars@.take(i + 1).drop_last() == chars@.take(i as int));
    }
    assert(chars@.take(chars.len() as int) == chars@);
    lower
}

/// The text without the white space at its end.
pub open spec fn trimmed_end(text: Seq<char>) -> Seq<char>
    decreases text.len(),
{
    if text.len() > 0 && white_space(text.last()) {
        trimmed_end(text.drop_last())
    } else {
        text
    }
}

/// The text without the white space at its start.
pub open spec fn trimmed_start(text: Seq<char>) -> Seq<char>
    decreases text.len(),
{
    if text.len() > 0 && white_space(text[0]) {
        trimmed_start(text.drop_first())
    } else {
        text
    }
}

/// The text without the white space at either end.
pub open spec fn trimmed(text: Seq<char>) -> Seq<char> {
    trimmed_end(trimmed_start(text))
}

/// The white space around a text plays no part in what it is once trimmed.
pub proof fn trimming_ignores_white_space(before: Seq<char>, text: Seq<char>, after: Seq<char>)
    requires
        forall|i: int| 0 <= i < before.len() ==> white_space(#[trigger] before[i]),
        forall|i: int| 0 <= i < after.len() ==> white_space(#[trigger] after[i]),
    ensures
        trimmed(before + text + after) == trimmed(text),
    decreases before.len() + after.len(),
{
    let padded = before + text + after;
    if before.len() > 0 {
        assert(padded[0] == before[0]);
        assert(padded.drop_first() == before.drop_first() + text + after);
        trimming_ignores_white_space(before.drop_first(), text, after);
    } else if after.len() > 0 {
        let shorter = before + text + after.drop_last();
        assert(padded == shorter.push(after.last()));
        lemma_trim_last(shorter, after.last());
        trimming_ignores_white_space(before, text, after.drop_last());
    } else {
        assert(padded == text);
    }
}

/// White space behind a text is trimmed.
proof fn lemma_trim_last(text: Seq<char>, c: char)
    requires
        white_space(c),
    ensures
        trimmed(text.push(c)) == trimmed(text),
    decreases text.len(),
{
    let longer = text.push(c);
    if text.len() == 0 {
        assert(longer.drop_first() == text);
        assert(trimmed_start(longer) == trimmed_start(text));
    } else if white_space(text[0]) {
        assert(longer[0] == text[0]);
        assert(longer.drop_first() == text.drop_first().push(c));
        lemma_trim_last(text.drop_first(), c);
    } else {
        assert(longer[0] == text[0]);
        assert(longer.drop_last() == text);
    }
}

/// Whether nothing is left of the text once it is trimmed.
pub open spec fn blank(text: Seq<char>) -> bool {
    trimmed(text).len() == 0
}

/// The characters of a text.
pub fn chars_of(text: &str) -> (chars: Vec<char>)
    ensures
        chars@ == text@,
{
    let mut chars: Vec<char> = Vec::new();
    for c in it: text.chars()
        invariant
            chars@ == it.seq().take(it.index() as int),
            it.seq() == text@,
    {
        chars.push(c);
    }
    chars
}

/// The text without the white space at either end.
pub fn trim(text: &str) -> (trimmed_text: String)
    ensures
        trimmed_text@ == trimmed(text@),
{
    let chars = chars_of(text);
    let mut from: usize = 0;
    assert(text@.skip(0) == text@);
    while from < chars.len() && is_white_space(chars[from])
        invariant
            from <= chars.len(),
            chars@ == text@,
            trimmed_start(text@) == trimmed_start(text@.skip(from as int)),
        decreases chars.len() - from,
    {
        assert(text@.skip(from as int).drop_first() == text@.skip(from + 1));
        from = from + 1;
    }
    let mut to: usize = chars.len();
    assert(text@.skip(from as int) == text@.subrange(from as int, to as int));
    while to > from && is_white_space(chars[to - 1])
        invariant
            from <= to <= chars.len(),
            chars@ == text@,
            trimmed(text@) == trimmed_end(text@.subrange(from as int, to as int)),
        decreases to,
    {
        assert(text@.subrange(from as int, to as int).drop_last() == text@.subrange(
            from as int,
            to - 1,
        ));
        to = to - 1;
    }
    text_between(&chars, from, to)
}

/// The text without the white space at its start, as characters.
pub fn trim_start(text: &str) -> (chars: Vec<char>)
    ensures
        chars@ == trimmed_start(text@),
{
    let all = chars_of(text);
    let mut from: usize = 0;
    assert(text@.skip(0) == text@);
    while from < all.len() && is_white_space(all[from])
        invariant
            from <= all.len(),
            all@ == text@,
            trimmed_start(text@) == trimmed_start(text@.skip(from as int)),
        decreases all.len() - from,
    {
        assert(text@.skip(from as int).drop_first() == text@.skip(from + 1));
        from = from + 1;
    }
    chars_between(&all, from, all.len())
}

/// The characters from one index up to another.
pub fn chars_between(chars: &[char], from: usize, to: usize) -> (part: Vec<char>)
    requires
        from <= to <= chars.len(),
    ensures
        part@ == chars@.subrange(from as int, to as int),
{
    let mut part: Vec<char> = Vec::new();
    for i in from..to
        invariant
            from <= to <= chars.len(),
            part@ == chars@.subrange(from as int, i as int),
    {
        part.push(chars[i]);
        assert(chars@.subrange(from as int, i + 1) == chars@.subrange(from as int, i as int).push(
            chars@[i as int],
        ));
    }
    part
}

/// The text the characters from one index up to another make up.
pub fn text_between(chars: &[char], from: usize, to: usize) -> (text: String)
    requires
        from <= to <= chars.len(),
    ensures
        text@ == chars@.subrange(from as int, to as int),
{
    let mut text = String::new();
    for i in from..to
        invariant
            from <= to <= chars.len(),
            text@ == chars@.subrange(from as int, i as int),
    {
        text.push(chars[i]);
        assert(chars@.subrange(from as int, i + 1) == chars@.subrange(from as int, i as int).push(
            chars@[i as int],
        ));
    }
    text
}

/// Whether nothing is left of the text once it is trimmed.
pub fn is_blank(text: &str) -> (is: bool)
    ensures
        is == blank(text@),
{
    let trimmed_text = trim(text);
    trimmed_text.as_str().is_empty()
}

/// Whether two texts hold the same characters.
pub fn same_text(a: &str, b: &str) -> (same: bool)
    ensures
        same == (a@ == b@),
{
    let mut left = a.chars();
    let mut right = b.chars();
    let ghost mut seen: int = 0;
    assert(a@.skip(0) == a@ && b@.skip(0) == b@);
    loop
        invariant
            0 <= seen <= a@.len(),
            seen <= b@.len(),
            vstd::std_specs::iter::IteratorSpec::remaining(&left) == a@.skip(seen),
            vstd::std_specs::iter::IteratorSpec::remaining(&right) == b@.skip(seen),
            a@.take(seen) == b@.take(seen),
        decreases a@.len() - seen,
    {
        match (left.next(), right.next()) {
            (None, None) => {
                assert(a@.take(seen) == a@ && b@.take(seen) == b@);
                return true;
            },
            (Some(x), Some(y)) => {
                assert(x == a@[seen] && y == b@[seen]);
                if x != y {
                    return false;
                }
                proof {
                    assert(a@.skip(seen).drop_first() == a@.skip(seen + 1));
                    assert(b@.skip(seen).drop_first() == b@.skip(seen + 1));
                    assert(a@.take(seen + 1) == a@.take(seen).push(x));
                    assert(b@.take(seen + 1) == b@.take(seen).push(y));
                    seen = seen + 1;
                }
            },
            _ => {
                return false;
            },
        }
    }
}

/// Whether a text starts with another.
pub fn starts_with(text: &str, prefix: &str) -> (starts: bool)
    ensures
        starts == prefix@.is_prefix_of(text@),
{
    let x = chars_of(text);
    let y = chars_of(prefix);
    y.len() <= x.len() && matches_at(&x, &y, 0)
}

/// Whether a text ends with another.
pub open spec fn ends_in(text: Seq<char>, suffix: Seq<char>) -> bool {
    suffix.len() <= text.len() && text.skip(text.len() - suffix.len()) == suffix
}

/// Whether a text ends with another.
pub fn ends_with(text: &str, suffix: &str) -> (ends: bool)
    ensures
        ends == ends_in(text@, suffix@),
{
    let x = chars_of(text);
    let y = chars_of(suffix);
    if y.len() > x.len() {
        return false;
    }
    assert(x@.subrange(x.len() - y.len(), x.len() as int) == x@.skip(x.len() - y.len()));
    matches_at(&x, &y, x.len() - y.len())
}

/// Whether the characters at an index are those of another run.
pub fn matches_at(chars: &[char], pattern: &[char], at: usize) -> (is: bool)
    requires
        at + pattern.len() <= chars.len(),
    ensures
        is == (chars@.subrange(at as int, at + pattern.len()) == pattern@),
        at == 0 ==> is == pattern@.is_prefix_of(chars@),
{
    for i in 0..pattern.len()
        invariant
            at + pattern.len() <= chars.len(),
            forall|j: int| 0 <= j < i ==> chars@[at + j] == pattern@[j],
    {
        if chars[at + i] != pattern[i] {
            assert(chars@.subrange(at as int, at + pattern.len())[i as int] != pattern@[i as int]);
            return false;
        }
    }
    assert(chars@.subrange(at as int, at + pattern.len()) == pattern@);
    true
}

/// Whether one text occurs somewhere inside another.
pub open spec fn occurs_in(pattern: Seq<char>, text: Seq<char>) -> bool {
    exists|at: int|
        0 <= at <= text.len() - pattern.len() && #[trigger] text.subrange(at, at + pattern.len())
            == pattern
}

/// Whether one text occurs somewhere inside another.
pub fn contains(text: &str, pattern: &str) -> (is: bool)
    ensures
        is == occurs_in(pattern@, text@),
{
    let x = chars_of(text);
    let y = chars_of(pattern);
    match find(&x, &y) {
        Some(at) => {
            assert(text@.subrange(at as int, at + pattern@.len()) == pattern@);
            true
        },
        None => false,
    }
}

/// Whether one text occurs inside another at an index, and nowhere before it.
pub open spec fn first_occurs_at(text: Seq<char>, pattern: Seq<char>, at: int) -> bool {
    &&& 0 <= at <= text.len() - pattern.len()
    &&& text.subrange(at, at + pattern.len()) == pattern
    &&& forall|i: int| 0 <= i < at ==> #[trigger] text.subrange(i, i + pattern.len()) != pattern
}

/// Where one run of characters first occurs inside another.
pub fn find(chars: &[char], pattern: &[char]) -> (at: Option<usize>)
    ensures
        match at {
            Some(at) => first_occurs_at(chars@, pattern@, at as int),
            None => !occurs_in(pattern@, chars@),
        },
{
    if pattern.len() > chars.len() {
        return None;
    }
    let last: usize = chars.len() - pattern.len();
    let mut at: usize = 0;
    while at <= last
        invariant
            last == chars.len() - pattern.len(),
            at <= last + 1,
            forall|i: int|
                0 <= i < at ==> #[trigger] chars@.subrange(i, i + pattern.len()) != pattern@,
        decreases last + 1 - at,
    {
        if matches_at(chars, pattern, at) {
            return Some(at);
        }
        if at == last {
            return None;
        }
        at = at + 1;
    }
    None
}

/// The ASCII lowercase of a character.
pub open spec fn ascii_lower(c: char) -> char {
    if 'A' <= c && c <= 'Z' {
        ((c as int) + 32) as char
    } else {
        c
    }
}

/// Whether two texts are the same but for the case of their ASCII letters.
pub open spec fn same_but_for_case(a: Seq<char>, b: Seq<char>) -> bool {
    a.len() == b.len() && forall|i: int|
        0 <= i < a.len() ==> ascii_lower(#[trigger] a[i]) == ascii_lower(b[i])
}

/// The ASCII lowercase of a character.
fn to_ascii_lower(c: char) -> (lower: char)
    ensures
        lower == ascii_lower(c),
{
    if 'A' <= c && c <= 'Z' {
        let code: u8 = (c as u32 as u8) + 32;
        code as char
    } else {
        c
    }
}

/// Whether two texts are the same but for the case of their ASCII letters.
pub fn eq_ignoring_case(a: &str, b: &str) -> (same: bool)
    ensures
        same == same_but_for_case(a@, b@),
{
    let x = chars_of(a);
    let y = chars_of(b);
    if x.len() != y.len() {
        return false;
    }
    for i in 0..x.len()
        invariant
            x.len() == y.len(),
            x@ == a@,
            y@ == b@,
            forall|j: int| 0 <= j < i ==> ascii_lower(#[trigger] a@[j]) == ascii_lower(b@[j]),
    {
        if to_ascii_lower(x[i]) != to_ascii_lower(y[i]) {
            assert(ascii_lower(a@[i as int]) != ascii_lower(b@[i as int]));
            return false;
        }
    }
    true
}

/// The character a decimal digit is written with.
pub open spec fn digit(d: nat) -> char {
    ('0' as int + d) as char
}

/// A number in decimal, without leading zeros.
pub open spec fn decimal(n: nat) -> Seq<char>
    decreases n,
{
    if n < 10 {
        seq![digit(n)]
    } else {
        decimal(n / 10).push(digit(n % 10))
    }
}

/// A number in decimal, with a leading `-` where it is negative.
pub open spec fn signed_decimal(n: int) -> Seq<char> {
    if n < 0 {
        seq!['-'] + decimal((-n) as nat)
    } else {
        decimal(n as nat)
    }
}

/// A number in decimal, with a leading zero where it has but one digit.
pub open spec fn padded(n: nat) -> Seq<char> {
    if n < 10 {
        seq!['0', digit(n)]
    } else {
        decimal(n)
    }
}

/// The character a decimal digit is written with.
fn digit_char(d: u64) -> (c: char)
    requires
        d < 10,
    ensures
        c == digit(d as nat),
{
    let code: u8 = 48 + d as u8;
    code as char
}

/// A number in decimal, without leading zeros.
pub fn decimal_of(n: u64) -> (text: String)
    ensures
        text@ == decimal(n as nat),
    decreases n,
{
    let mut text = if n < 10 {
        String::new()
    } else {
        decimal_of(n / 10)
    };
    text.push(digit_char(n % 10));
    assert(n < 10 ==> text@ == seq![digit(n as nat)]);
    text
}

/// A number in decimal, with a leading `-` where it is negative.
pub fn signed_decimal_of(n: i32) -> (text: String)
    ensures
        text@ == signed_decimal(n as int),
{
    if n < 0 {
        let mut text = String::new();
        text.push('-');
        let magnitude: i64 = -(n as i64);
        text.append(decimal_of(magnitude as u64).as_str());
        assert(text@ == seq!['-'] + decimal((-(n as int)) as nat));
        text
    } else {
        decimal_of(n as u64)
    }
}

/// A number in decimal, with a leading zero where it has but one digit.
pub fn padded_of(n: u64) -> (text: String)
    ensures
        text@ == padded(n as nat),
{
    if n < 10 {
        let mut text = String::new();
        text.push('0');
        text.push(digit_char(n));
        assert(text@ == padded(n as nat));
        text
    } else {
        decimal_of(n)
    }
}

/// The characters of each of some texts.
pub open spec fn views(texts: Seq<String>) -> Seq<Seq<char>> {
    texts.map_values(|text: String| text@)
}

/// The same texts once more.
pub fn copied(texts: &[String]) -> (copies: Vec<String>)
    ensures
        views(copies@) == views(texts@),
{
    let mut copies: Vec<String> = Vec::new();
    for i in 0..texts.len()
        invariant
            views(copies@) == views(texts@).take(i as int),
    {
        let ghost before = copies@;
        copies.push(texts[i].clone());
        assert(views(copies@) == views(before).push(texts@[i as int]@));
        assert(views(texts@).take(i + 1) == views(texts@).take(i as int).push(texts@[i as int]@));
    }
    assert(views(texts@).take(texts.len() as int) == views(texts@));
    copies
}

/// Whether a text is among some texts.
pub fn is_among(texts: &[String], text: &str) -> (is: bool)
    ensures
        is == views(texts@).contains(text@),
{
    for i in 0..texts.len()
        invariant
            forall|j: int| 0 <= j < i ==> (#[trigger] texts@[j])@ != text@,
    {
        if same_text(texts[i].as_str(), text) {
            assert(views(texts@)[i as int] == text@);
            return true;
        }
    }
    false
}

/// Some texts one after the other, with a separator between neighbours.
pub open spec fn joined(texts: Seq<Seq<char>>, separator: Seq<char>) -> Seq<char>
    decreases texts.len(),
{
    if texts.len() == 0 {
        Seq::empty()
    } else if texts.len() == 1 {
        texts[0]
    } else {
        joined(texts.drop_last(), separator) + separator + texts.last()
    }
}

/// Some texts one after the other, with a separator between neighbours.
pub fn join(texts: &[String], separator: &str) -> (text: String)
    ensures
        text@ == joined(views(texts@), separator@),
{
    let mut text = String::new();
    assert(views(texts@).take(0) == Seq::<Seq<char>>::empty());
    for i in 0..texts.len()
        invariant
            text@ == joined(views(texts@).take(i as int), separator@),
    {
        if i > 0 {
            text.append(separator);
        }
        text.append(texts[i].as_str());
        assert(views(texts@).take(i + 1).drop_last() == views(texts@).take(i as int));
        assert(views(texts@).take(i + 1).last() == texts@[i as int]@);
        assert(i == 0 ==> text@ == texts@[0]@);
    }
    assert(views(texts@).take(texts.len() as int) == views(texts@));
    text
}

/// The least of three numbers.
pub open spec fn least(a: nat, b: nat, c: nat) -> nat {
    if a <= b && a <= c {
        a
    } else if b <= c {
        b
    } else {
        c
    }
}

/// The fewest insertions, deletions and substitutions of one character which
/// turn one text into another.
pub open spec fn edit_distance(a: Seq<char>, b: Seq<char>) -> nat
    decreases a.len() + b.len(),
{
    if a.len() == 0 {
        b.len()
    } else if b.len() == 0 {
        a.len()
    } else if a.last() == b.last() {
        edit_distance(a.drop_last(), b.drop_last())
    } else {
        1 + least(
            edit_distance(a.drop_last(), b),
            edit_distance(a, b.drop_last()),
            edit_distance(a.drop_last(), b.drop_last()),
        )
    }
}

/// `strsim::levenshtein`: the fewest insertions, deletions and substitutions
/// of one character which turn one text into the other.
#[verifier::external_body]
pub(crate) fn edit_distance_of(a: &str, b: &str) -> (distance: usize)
    ensures
        distance == edit_distance(a@, b@),
{
    strsim::levenshtein(a, b)
}

/// How many bytes a text takes up.
pub open spec fn byte_len(text: Seq<char>) -> nat {
    vstd::utf8::encode_utf8(text).len()
}

/// How many bytes a text takes up.
pub fn byte_len_of(text: &str) -> (bytes: usize)
    ensures
        bytes == byte_len(text@),
{
    text.as_bytes().len()
}

/// How far apart two numbers are.
pub open spec fn apart(a: nat, b: nat) -> nat {
    if a <= b {
        (b - a) as nat
    } else {
        (a - b) as nat
    }
}

/// How far apart two numbers are.
pub fn apart_of(a: usize, b: usize) -> (gap: usize)
    ensures
        gap == apart(a as nat, b as nat),
{
    if a <= b {
        b - a
    } else {
        a - b
    }
}

/// Whether a text comes before another in the order of their characters.
pub open spec fn sorts_before(a: Seq<char>, b: Seq<char>) -> bool
    decreases a.len(),
{
    if b.len() == 0 {
        false
    } else if a.len() == 0 {
        true
    } else if a[0] != b[0] {
        a[0] < b[0]
    } else {
        sorts_before(a.drop_first(), b.drop_first())
    }
}

/// Whether a text comes before another in the order of their characters.
pub fn comes_before(a: &str, b: &str) -> (before: bool)
    ensures
        before == sorts_before(a@, b@),
{
    let left = chars_of(a);
    let right = chars_of(b);
    let mut at: usize = 0;
    assert(left@.skip(0) == left@);
    assert(right@.skip(0) == right@);
    while at < left.len() && at < right.len() && left[at] == right[at]
        invariant
            at <= left.len(),
            at <= right.len(),
            sorts_before(left@, right@) == sorts_before(
                left@.skip(at as int),
                right@.skip(at as int),
            ),
        decreases left.len() - at,
    {
        assert(left@.skip(at as int).drop_first() == left@.skip(at + 1));
        assert(right@.skip(at as int).drop_first() == right@.skip(at + 1));
        at = at + 1;
    }
    if at >= right.len() {
        false
    } else if at >= left.len() {
        true
    } else {
        left[at] < right[at]
    }
}

/// The order of texts is a total one.
pub proof fn texts_are_ordered(a: Seq<char>, b: Seq<char>)
    ensures
        !sorts_before(a, a),
        sorts_before(a, b) ==> !sorts_before(b, a),
        a != b ==> sorts_before(a, b) || sorts_before(b, a),
    decreases a.len(),
{
    if a.len() > 0 && b.len() > 0 && a[0] == b[0] {
        texts_are_ordered(a.drop_first(), b.drop_first());
        if a.drop_first() == b.drop_first() {
            assert(a == seq![a[0]] + a.drop_first());
            assert(b == seq![b[0]] + b.drop_first());
        }
    } else if a.len() > 0 {
        texts_are_ordered(a.drop_first(), a.drop_first());
    }
    if a.len() > 0 {
        texts_are_ordered(a.drop_first(), a.drop_first());
    } else if b.len() == 0 {
        assert(a == b);
    }
}

/// The order of texts is transitive.
pub proof fn text_order_is_transitive(a: Seq<char>, b: Seq<char>, c: Seq<char>)
    requires
        sorts_before(a, b),
        sorts_before(b, c),
    ensures
        sorts_before(a, c),
    decreases a.len(),
{
    if a.len() > 0 && a[0] == b[0] && b[0] == c[0] {
        text_order_is_transitive(a.drop_first(), b.drop_first(), c.drop_first());
    }
}

/// Where a text's first line ends: at its first line feed, or at its end.
pub open spec fn line_end(text: Seq<char>) -> int
    decreases text.len(),
{
    if text.len() == 0 || text[0] == '\n' {
        0
    } else {
        1 + line_end(text.drop_first())
    }
}

/// A line ends within its text.
pub proof fn lemma_line_end(text: Seq<char>)
    ensures
        0 <= line_end(text) <= text.len(),
    decreases text.len(),
{
    if text.len() > 0 && text[0] != '\n' {
        lemma_line_end(text.drop_first());
    }
}

/// A text's first line, without the line feed it ends with or a carriage
/// return right before it.
pub open spec fn first_line(text: Seq<char>) -> Seq<char> {
    let end = line_end(text);
    if 0 < end < text.len() && text[end - 1] == '\r' {
        text.take(end - 1)
    } else {
        text.take(end)
    }
}

/// The lines of a text. The last may lack its line feed.
pub open spec fn lines(text: Seq<char>) -> Seq<Seq<char>>
    decreases text.len(),
{
    let end = line_end(text);
    if text.len() == 0 {
        Seq::empty()
    } else if 0 <= end < text.len() {
        seq![first_line(text)] + lines(text.skip(end + 1))
    } else {
        seq![first_line(text)]
    }
}

/// The lines of a text.
pub fn lines_of(text: &str) -> (found: Vec<String>)
    ensures
        views(found@) == lines(text@),
{
    let chars = chars_of(text);
    let mut found: Vec<String> = Vec::new();
    let mut from: usize = 0;
    assert(chars@.skip(0) == chars@);
    assert(views(found@) + lines(chars@) == lines(chars@));
    while from < chars.len()
        invariant
            from <= chars.len(),
            views(found@) + lines(chars@.skip(from as int)) == lines(chars@),
        decreases chars.len() - from,
    {
        let ghost rest = chars@.skip(from as int);
        let ghost before = views(found@);
        let mut end: usize = from;
        while end < chars.len() && chars[end] != '\n'
            invariant
                from <= end <= chars.len(),
                line_end(chars@.skip(from as int)) == (end - from) + line_end(
                    chars@.skip(end as int),
                ),
            decreases chars.len() - end,
        {
            assert(chars@.skip(end as int).drop_first() == chars@.skip(end + 1));
            end = end + 1;
        }
        assert(line_end(rest) == end - from);
        let stop: usize = if end < chars.len() && from < end && chars[end - 1] == '\r' {
            end - 1
        } else {
            end
        };
        let line = text_between(&chars, from, stop);
        assert(line@ == first_line(rest));
        found.push(line);
        assert(views(found@) == before.push(line@));
        if end < chars.len() {
            assert(rest.skip(end - from + 1) == chars@.skip(end + 1));
            assert(views(found@) + lines(chars@.skip(end + 1)) == before + lines(rest));
            from = end + 1;
        } else {
            assert(views(found@) == before + lines(rest));
            from = chars.len();
            assert(chars@.skip(from as int) == Seq::<char>::empty());
            assert(views(found@) + lines(chars@.skip(from as int)) == views(found@));
        }
    }
    assert(chars@.skip(from as int) == Seq::<char>::empty());
    assert(views(found@) + Seq::<Seq<char>>::empty() == views(found@));
    found
}

/// Where a separator first stands in a text, or where the text ends.
pub open spec fn separator_at(text: Seq<char>, separator: char) -> int
    decreases text.len(),
{
    if text.len() == 0 || text[0] == separator {
        0
    } else {
        1 + separator_at(text.drop_first(), separator)
    }
}

/// The parts of a text between separators. A text without one is its only
/// part, and so is an empty text.
pub open spec fn fields(text: Seq<char>, separator: char) -> Seq<Seq<char>>
    decreases text.len(),
{
    let end = separator_at(text, separator);
    if 0 <= end < text.len() {
        seq![text.take(end)] + fields(text.skip(end + 1), separator)
    } else {
        seq![text]
    }
}

/// The parts of a text between separators.
pub fn fields_of(text: &str, separator: char) -> (found: Vec<String>)
    ensures
        views(found@) == fields(text@, separator),
        found@.len() > 0,
{
    let chars = chars_of(text);
    let mut found: Vec<String> = Vec::new();
    let mut from: usize = 0;
    let mut more: bool = true;
    assert(chars@.skip(0) == chars@);
    assert(views(found@) + fields(chars@, separator) == fields(chars@, separator));
    while more
        invariant
            from <= chars.len(),
            more ==> views(found@) + fields(chars@.skip(from as int), separator) == fields(
                chars@,
                separator,
            ),
            !more ==> views(found@) == fields(chars@, separator) && found@.len() > 0,
        decreases chars.len() - from + if more { 1int } else { 0 },
    {
        let ghost rest = chars@.skip(from as int);
        let ghost before = views(found@);
        let mut end: usize = from;
        while end < chars.len() && chars[end] != separator
            invariant
                from <= end <= chars.len(),
                separator_at(chars@.skip(from as int), separator) == (end - from) + separator_at(
                    chars@.skip(end as int),
                    separator,
                ),
            decreases chars.len() - end,
        {
            assert(chars@.skip(end as int).drop_first() == chars@.skip(end + 1));
            end = end + 1;
        }
        assert(separator_at(rest, separator) == end - from);
        let field = text_between(&chars, from, end);
        assert(field@ == rest.take(end - from));
        found.push(field);
        assert(views(found@) == before.push(field@));
        if end < chars.len() {
            assert(rest.skip(end - from + 1) == chars@.skip(end + 1));
            assert(views(found@) + fields(chars@.skip(end + 1), separator) == before + fields(
                rest,
                separator,
            ));
            from = end + 1;
        } else {
            assert(field@ == rest);
            assert(views(found@) == before + fields(rest, separator));
            more = false;
        }
    }
    found
}

/// Whether a character is a decimal digit.
pub open spec fn is_digit(c: char) -> bool {
    '0' <= c <= '9'
}

/// The number some decimal digits stand for.
pub open spec fn digits_value(digits: Seq<char>) -> nat
    decreases digits.len(),
{
    if digits.len() == 0 {
        0
    } else {
        digits_value(digits.drop_last()) * 10 + (digits.last() as nat - '0' as nat) as nat
    }
}

/// A text without the plus sign it may start with.
pub open spec fn unsigned(text: Seq<char>) -> Seq<char> {
    if text.len() > 1 && text[0] == '+' {
        text.skip(1)
    } else {
        text
    }
}

/// The number a text stands for: decimal digits, with or without a leading
/// plus sign, which come to no more than a `u32` holds.
pub open spec fn number_in(text: Seq<char>) -> Option<u32> {
    let digits = unsigned(text);
    if digits.len() > 0 && (forall|i: int| 0 <= i < digits.len() ==> is_digit(#[trigger] digits[i]))
        && digits_value(digits) <= u32::MAX {
        Some(digits_value(digits) as u32)
    } else {
        None
    }
}

/// More digits never stand for a smaller number.
proof fn lemma_digits_grow(digits: Seq<char>, end: int)
    requires
        0 <= end <= digits.len(),
        forall|i: int| 0 <= i < digits.len() ==> is_digit(#[trigger] digits[i]),
    ensures
        digits_value(digits.take(end)) <= digits_value(digits),
    decreases digits.len() - end,
{
    if end == digits.len() {
        assert(digits.take(end) == digits);
    } else {
        assert(digits.take(end + 1).drop_last() == digits.take(end));
        lemma_digits_grow(digits, end + 1);
    }
}

/// The number a text stands for.
pub fn number_of(text: &str) -> (number: Option<u32>)
    ensures
        number == number_in(text@),
{
    let chars = chars_of(text);
    let from: usize = if chars.len() > 1 && chars[0] == '+' {
        1
    } else {
        0
    };
    let ghost digits = chars@.skip(from as int);
    assert(from == 0 ==> digits == chars@);
    if from >= chars.len() {
        return None;
    }
    for i in from..chars.len()
        invariant
            from <= chars.len(),
            digits == chars@.skip(from as int),
            digits == unsigned(text@),
            forall|j: int| 0 <= j < i - from ==> is_digit(#[trigger] digits[j]),
    {
        if chars[i] < '0' || chars[i] > '9' {
            assert(!is_digit(digits[i - from]));
            return None;
        }
        assert(digits[i - from] == chars@[i as int]);
    }
    let mut value: u64 = 0;
    assert(digits.take(0) == Seq::<char>::empty());
    for i in from..chars.len()
        invariant
            from <= chars.len(),
            digits == chars@.skip(from as int),
            digits == unsigned(text@),
            forall|j: int| 0 <= j < digits.len() ==> is_digit(#[trigger] digits[j]),
            value == digits_value(digits.take(i - from)),
            value <= u32::MAX,
    {
        assert(digits.take(i + 1 - from).drop_last() == digits.take(i - from));
        assert(digits.take(i + 1 - from).last() == chars@[i as int]);
        assert(is_digit(digits[i - from]));
        value = value * 10 + (chars[i] as u64 - '0' as u64);
        if value > u32::MAX as u64 {
            proof {
                lemma_digits_grow(digits, i + 1 - from);
            }
            return None;
        }
    }
    assert(digits.take(chars.len() - from) == digits);
    Some(value as u32)
}

/// Whether `char::is_alphabetic` holds of a character.
pub uninterp spec fn alphabetic(c: char) -> bool;

/// `char::is_alphabetic`: whether a character has Unicode's Alphabetic
/// property, which depends on the character alone. Of the ASCII characters the
/// letters have it.
#[verifier::external_body]
pub(crate) fn is_alphabetic(c: char) -> (is: bool)
    ensures
        is == alphabetic(c),
        c < '\u{80}' ==> is == ('a' <= c <= 'z' || 'A' <= c <= 'Z'),
{
    c.is_alphabetic()
}

// --- What holds of texts ---------------------------------------------------------
/// A number which is written down reads back: its digits stand for it, and there
/// is no more of them than it takes.
pub proof fn numbers_read_back(n: nat)
    ensures
        digits_value(decimal(n)) == n,
        decimal(n).len() > 0,
        forall|i: int| 0 <= i < decimal(n).len() ==> is_digit(#[trigger] decimal(n)[i]),
        n > 0 ==> decimal(n)[0] != '0',
        n <= u32::MAX ==> number_in(decimal(n)) == Some(n as u32),
    decreases n,
{
    let digits = decimal(n);
    let last = (n % 10) as nat;
    assert(digits.drop_last() =~= if n < 10 {
        Seq::empty()
    } else {
        decimal(n / 10)
    });
    if n < 10 {
        assert(digits_value(digits.drop_last()) == 0);
        assert(digits.last() == digit(n));
        assert('0' as int + n <= '9' as int);
    } else {
        numbers_read_back(n / 10);
        assert(digits.last() == digit(last));
        assert('0' as int + last <= '9' as int);
        assert(digits[0] == decimal(n / 10)[0]);
    }
    assert(is_digit(digits[0]));
    assert(unsigned(digits) == digits);
}

/// A number with a sign reads back as well, and so does one which is filled up
/// to two digits.
pub proof fn signed_and_padded_numbers_read_back(n: int)
    ensures
        n >= 0 ==> digits_value(signed_decimal(n)) == n,
        n < 0 ==> signed_decimal(n)[0] == '-' && digits_value(signed_decimal(n).skip(1)) == -n,
        n >= 0 ==> digits_value(padded(n as nat)) == n && padded(n as nat).len() >= 2,
        0 <= n < 100 ==> padded(n as nat).len() == 2,
{
    if n < 0 {
        numbers_read_back((-n) as nat);
        assert(signed_decimal(n).skip(1) =~= decimal((-n) as nat));
    } else {
        numbers_read_back(n as nat);
        if n < 10 {
            let text = padded(n as nat);
            assert(text.drop_last() =~= seq!['0']);
            assert(seq!['0'].drop_last() =~= Seq::<char>::empty());
            assert(digits_value(seq!['0'].drop_last()) == 0);
            assert(digits_value(seq!['0']) == 0);
            assert('0' as int + n <= '9' as int);
        } else {
            numbers_read_back((n / 10) as nat);
            if n < 100 {
                assert(decimal((n / 10) as nat).len() == 1);
            }
        }
    }
}

/// Trimming takes the white space around a text, all of it, and nothing else.
pub proof fn trimming_takes_only_white_space(text: Seq<char>)
    ensures
        exists|before: Seq<char>, after: Seq<char>|
            {
                &&& text == #[trigger] (before + trimmed(text) + after)
                &&& forall|i: int| 0 <= i < before.len() ==> white_space(#[trigger] before[i])
                &&& forall|i: int| 0 <= i < after.len() ==> white_space(#[trigger] after[i])
            },
        trimmed(text).len() > 0 ==> !white_space(trimmed(text)[0]) && !white_space(
            trimmed(text).last(),
        ),
{
    let half = trimmed_start(text);
    let before = lemma_trimmed_start(text);
    let after = lemma_trimmed_end(half);
    let kept = trimmed(text);
    assert(text =~= before + kept + after);
    if kept.len() > 0 {
        assert(kept[0] == half[0]);
    }
}

/// What is taken from the start of a text is white space.
proof fn lemma_trimmed_start(text: Seq<char>) -> (before: Seq<char>)
    ensures
        text == before + trimmed_start(text),
        forall|i: int| 0 <= i < before.len() ==> white_space(#[trigger] before[i]),
        trimmed_start(text).len() > 0 ==> !white_space(trimmed_start(text)[0]),
    decreases text.len(),
{
    if text.len() > 0 && white_space(text[0]) {
        let rest = lemma_trimmed_start(text.drop_first());
        let before = seq![text[0]] + rest;
        assert(text =~= seq![text[0]] + text.drop_first());
        assert(text.drop_first() == rest + trimmed_start(text));
        assert(text =~= before + trimmed_start(text));
        before
    } else {
        assert(text =~= Seq::<char>::empty() + text);
        Seq::empty()
    }
}

/// What is taken from the end of a text is white space.
proof fn lemma_trimmed_end(text: Seq<char>) -> (after: Seq<char>)
    ensures
        text == trimmed_end(text) + after,
        forall|i: int| 0 <= i < after.len() ==> white_space(#[trigger] after[i]),
        trimmed_end(text).len() > 0 ==> !white_space(trimmed_end(text).last()),
    decreases text.len(),
{
    if text.len() > 0 && white_space(text.last()) {
        let rest = lemma_trimmed_end(text.drop_last());
        let after = rest.push(text.last());
        assert(text =~= text.drop_last().push(text.last()));
        assert(text.drop_last() == trimmed_end(text) + rest);
        assert(text =~= trimmed_end(text) + after);
        after
    } else {
        assert(text =~= text + Seq::<char>::empty());
        Seq::empty()
    }
}

/// Joining texts puts the separator between every two neighbours and nowhere
/// else: two lists joined are the lists joined, with a separator between them.
pub proof fn joining_adds_up(first: Seq<Seq<char>>, second: Seq<Seq<char>>, separator: Seq<char>)
    requires
        first.len() > 0,
        second.len() > 0,
    ensures
        joined(first + second, separator) == joined(first, separator) + separator + joined(
            second,
            separator,
        ),
        first.len() == 1 ==> joined(first, separator) == first[0],
    decreases second.len(),
{
    let all = first + second;
    assert(all.drop_last() =~= first + second.drop_last());
    assert(all.last() == second.last());
    if second.len() == 1 {
        assert(first + second.drop_last() =~= first);
    } else {
        joining_adds_up(first, second.drop_last(), separator);
        assert(joined(first, separator) + separator + joined(second.drop_last(), separator)
            + separator + second.last() =~= joined(first, separator) + separator + joined(
            second,
            separator,
        ));
    }
}

/// Where a separator first stands there is one, and there is none before.
pub proof fn lemma_separator_at(text: Seq<char>, separator: char)
    ensures
        0 <= separator_at(text, separator) <= text.len(),
        separator_at(text, separator) < text.len() ==> text[separator_at(text, separator)]
            == separator,
        forall|i: int| 0 <= i < separator_at(text, separator) ==> #[trigger] text[i] != separator,
    decreases text.len(),
{
    if text.len() > 0 && text[0] != separator {
        let rest = text.drop_first();
        lemma_separator_at(rest, separator);
        assert forall|i: int| 0 <= i < separator_at(text, separator) implies #[trigger] text[i]
            != separator by {
            if i > 0 {
                assert(rest[i - 1] == text[i]);
            }
        }
    }
}

/// Splitting a text at a separator loses nothing: the fields, joined by it, are
/// the text, and none of them has it in it.
pub proof fn fields_join_back(text: Seq<char>, separator: char)
    ensures
        joined(fields(text, separator), seq![separator]) == text,
        forall|i: int|
            0 <= i < fields(text, separator).len() ==> !(#[trigger] fields(
                text,
                separator,
            )[i]).contains(separator),
        fields(text, separator).len() > 0,
    decreases text.len(),
{
    let end = separator_at(text, separator);
    let all = fields(text, separator);
    lemma_separator_at(text, separator);
    if end < text.len() {
        let rest = text.skip(end + 1);
        fields_join_back(rest, separator);
        let head = seq![text.take(end)];
        joining_adds_up(head, fields(rest, separator), seq![separator]);
        assert(text =~= text.take(end) + seq![separator] + rest);
        assert forall|i: int| 0 <= i < all.len() implies !(#[trigger] all[i]).contains(
            separator,
        ) by {
            if i > 0 {
                assert(all[i] == fields(rest, separator)[i - 1]);
            }
        }
    }
}

/// Where a line ends there is a line feed, and none before.
proof fn lemma_line_ends(text: Seq<char>)
    ensures
        0 <= line_end(text) <= text.len(),
        line_end(text) < text.len() ==> text[line_end(text)] == '\n',
        forall|i: int| 0 <= i < line_end(text) ==> #[trigger] text[i] != '\n',
    decreases text.len(),
{
    if text.len() > 0 && text[0] != '\n' {
        let rest = text.drop_first();
        lemma_line_ends(rest);
        assert forall|i: int| 0 <= i < line_end(text) implies #[trigger] text[i] != '\n' by {
            if i > 0 {
                assert(rest[i - 1] == text[i]);
            }
        }
    }
}

/// Taking a text apart into lines loses nothing but the line ends: no line has a
/// line feed in it, and a text without carriage returns is its lines joined by
/// line feeds, with one more at the end where it ends in one.
pub proof fn lines_join_back(text: Seq<char>)
    ensures
        forall|i: int| 0 <= i < lines(text).len() ==> !(#[trigger] lines(text)[i]).contains('\n'),
        !text.contains('\r') && text.len() > 0 ==> lines(text).len() > 0 && text == joined(
            lines(text),
            seq!['\n'],
        ) + if text.last() == '\n' {
            seq!['\n']
        } else {
            Seq::empty()
        },
    decreases text.len(),
{
    let end = line_end(text);
    let all = lines(text);
    lemma_line_ends(text);
    if text.len() > 0 {
        if end < text.len() {
            let rest = text.skip(end + 1);
            lines_join_back(rest);
            assert forall|i: int| 0 <= i < all.len() implies !(#[trigger] all[i]).contains(
                '\n',
            ) by {
                if i > 0 {
                    assert(all[i] == lines(rest)[i - 1]);
                }
            }
            if !text.contains('\r') {
                assert(!rest.contains('\r')) by {
                    if rest.contains('\r') {
                        let k = choose|k: int| 0 <= k < rest.len() && rest[k] == '\r';
                        assert(text[k + end + 1] == '\r');
                    }
                }
                if end > 0 {
                    assert(text[end - 1] != '\r') by {
                        if text[end - 1] == '\r' {
                            assert(text.contains('\r'));
                        }
                    }
                }
                let head = seq![text.take(end)];
                assert(first_line(text) == text.take(end));
                if rest.len() > 0 {
                    joining_adds_up(head, lines(rest), seq!['\n']);
                    assert(rest.last() == text.last());
                    assert(text =~= text.take(end) + seq!['\n'] + rest);
                    assert(text =~= joined(all, seq!['\n']) + if text.last() == '\n' {
                        seq!['\n']
                    } else {
                        Seq::empty()
                    });
                } else {
                    assert(all =~= head);
                    assert(text =~= text.take(end) + seq!['\n']);
                }
            }
        } else {
            assert(first_line(text) =~= text);
            assert(text.last() != '\n');
            assert(text =~= joined(all, seq!['\n']) + Seq::<char>::empty());
        }
    }
}

/// The first character in which two texts differ decides which sorts first.
pub proof fn the_first_difference_decides(
    shared: Seq<char>,
    a: char,
    b: char,
    after_a: Seq<char>,
    after_b: Seq<char>,
)
    requires
        a != b,
    ensures
        sorts_before(shared + seq![a] + after_a, shared + seq![b] + after_b) == (a < b),
        sorts_before(shared, shared + seq![b] + after_b),
    decreases shared.len(),
{
    let x = shared + seq![a] + after_a;
    let y = shared + seq![b] + after_b;
    if shared.len() > 0 {
        let rest = shared.drop_first();
        the_first_difference_decides(rest, a, b, after_a, after_b);
        assert(x.drop_first() =~= rest + seq![a] + after_a);
        assert(y.drop_first() =~= rest + seq![b] + after_b);
    }
}

/// A text occurs wherever something stands before and behind it.
pub proof fn a_part_occurs(before: Seq<char>, part: Seq<char>, after: Seq<char>)
    ensures
        occurs_in(part, before + part + after),
{
    let text = before + part + after;
    let at = before.len() as int;
    assert(text.subrange(at, at + part.len()) =~= part);
}

/// What occurs in a text occurs in whatever the text is a part of.
pub proof fn a_part_still_occurs(
    part: Seq<char>,
    before: Seq<char>,
    text: Seq<char>,
    after: Seq<char>,
)
    requires
        occurs_in(part, text),
    ensures
        occurs_in(part, before + text + after),
{
    let at = choose|at: int|
        0 <= at <= text.len() - part.len() && #[trigger] text.subrange(at, at + part.len())
            == part;
    let whole = before + text + after;
    let there = before.len() + at;
    assert(whole.subrange(there, there + part.len()) =~= text.subrange(at, at + part.len()));
}

/// Every text which is joined occurs in what it is joined to.
pub proof fn every_joined_text_occurs(texts: Seq<Seq<char>>, separator: Seq<char>, i: int)
    requires
        0 <= i < texts.len(),
    ensures
        occurs_in(texts[i], joined(texts, separator)),
    decreases texts.len(),
{
    let nothing = Seq::<char>::empty();
    if texts.len() == 1 {
        a_part_occurs(nothing, texts[0], nothing);
        assert(nothing + texts[0] + nothing =~= texts[0]);
    } else {
        let fewer = texts.drop_last();
        let head = joined(fewer, separator);
        if i < fewer.len() {
            assert(fewer[i] == texts[i]);
            every_joined_text_occurs(fewer, separator, i);
            a_part_still_occurs(texts[i], nothing, head, separator + texts.last());
            assert(nothing + head + (separator + texts.last()) =~= joined(texts, separator));
        } else {
            a_part_occurs(head + separator, texts[i], nothing);
            assert(head + separator + texts[i] + nothing =~= joined(texts, separator));
        }
    }
}

/// Texts which are joined by a separator none of them has split up again.
pub proof fn joined_texts_split_up_again(texts: Seq<Seq<char>>, separator: char)
    requires
        texts.len() > 0,
        forall|i: int| 0 <= i < texts.len() ==> !(#[trigger] texts[i]).contains(separator),
    ensures
        fields(joined(texts, seq![separator]), separator) == texts,
    decreases texts.len(),
{
    let all = joined(texts, seq![separator]);
    let head = texts[0];
    assert(!head.contains(separator));
    lemma_separator_at(all, separator);
    if texts.len() == 1 {
        assert(all == head);
        if separator_at(all, separator) < all.len() {
            assert(all.contains(separator));
        }
        assert(texts =~= seq![head]);
    } else {
        let rest = texts.drop_first();
        assert forall|i: int| 0 <= i < rest.len() implies !(#[trigger] rest[i]).contains(
            separator,
        ) by {
            assert(rest[i] == texts[i + 1]);
        }
        joined_texts_split_up_again(rest, separator);
        joining_adds_up(seq![head], rest, seq![separator]);
        assert(seq![head] + rest =~= texts);
        let tail = joined(rest, seq![separator]);
        assert(all == head + seq![separator] + tail);
        let at = head.len() as int;
        let end = separator_at(all, separator);
        assert(all[at] == separator);
        if end < at {
            assert(head[end] == separator);
            assert(head.contains(separator));
        }
        assert(end == at);
        assert(all.take(at) =~= head);
        assert(all.skip(at + 1) =~= tail);
        assert(fields(all, separator) =~= texts);
    }
}

/// What occurs in something which occurs in a text occurs in the text.
pub proof fn a_part_of_a_part_occurs(part: Seq<char>, middle: Seq<char>, text: Seq<char>)
    requires
        occurs_in(part, middle),
        occurs_in(middle, text),
    ensures
        occurs_in(part, text),
{
    let at = choose|at: int|
        0 <= at <= text.len() - middle.len() && #[trigger] text.subrange(at, at + middle.len())
            == middle;
    let before = text.take(at);
    let after = text.skip(at + middle.len());
    a_part_still_occurs(part, before, middle, after);
    assert(before + middle + after =~= text);
}

/// Texts are no distance apart just where they are the same, it is as far from
/// one to the other as back, and never farther than the longer of them is long.
pub proof fn distance_is_a_measure_of_difference(a: Seq<char>, b: Seq<char>)
    ensures
        edit_distance(a, b) == edit_distance(b, a),
        (edit_distance(a, b) == 0) == (a == b),
        edit_distance(a, b) >= a.len() - b.len(),
        edit_distance(a, b) <= a.len() || edit_distance(a, b) <= b.len(),
    decreases a.len() + b.len(),
{
    if a.len() > 0 && b.len() > 0 {
        distance_is_a_measure_of_difference(a.drop_last(), b);
        distance_is_a_measure_of_difference(a, b.drop_last());
        distance_is_a_measure_of_difference(a.drop_last(), b.drop_last());
        assert(a =~= a.drop_last().push(a.last()));
        assert(b =~= b.drop_last().push(b.last()));
        if a == b {
            assert(a.drop_last() == b.drop_last());
        }
    } else if a.len() == 0 && b.len() == 0 {
        assert(a =~= b);
    }
}

} // verus!

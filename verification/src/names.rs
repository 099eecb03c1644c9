//! The grammar of element names.
//!
//! An element is called by a plain name or, where it is one part of a
//! multi-part element, by a compound name: the element's name, a separator
//! and the part's index in decimal, as in `"x.1"`.

use vstd::prelude::*;
use vstd::string::*;

verus! {

/// The character that parts a compound name.
pub const SEPARATOR: char = '.';

/// Length of the longest prefix of `s` that holds no separator.
pub open spec fn segment_len(s: Seq<char>) -> nat
    decreases s.len(),
{
    if s.len() == 0 || s[0] == SEPARATOR {
        0
    } else {
        1 + segment_len(s.skip(1))
    }
}

/// Whether `s` holds a separator at all.
pub open spec fn has_separator(s: Seq<char>) -> bool {
    segment_len(s) < s.len()
}

/// What stands before the first separator of `s`.
pub open spec fn base_part(s: Seq<char>) -> Seq<char> {
    s.take(segment_len(s) as int)
}

/// What stands between the first separator of `s` and the second one, or the
/// end of `s` where there is no second one.
pub open spec fn index_segment(s: Seq<char>) -> Seq<char> {
    let rest = s.skip(segment_len(s) as int + 1);
    rest.take(segment_len(rest) as int)
}

pub open spec fn is_digit(c: char) -> bool {
    '0' <= c <= '9'
}

pub open spec fn digit_value(c: char) -> nat {
    (c as nat - '0' as nat) as nat
}

/// The number that a string of decimal digits denotes.
pub open spec fn digits_value(s: Seq<char>) -> nat
    decreases s.len(),
{
    if s.len() == 0 {
        0
    } else {
        10 * digits_value(s.drop_last()) + digit_value(s.last())
    }
}

/// Whether `s` is a non-empty string of decimal digits.
pub open spec fn is_number(s: Seq<char>) -> bool {
    s.len() > 0 && forall|i: int| 0 <= i < s.len() ==> is_digit(#[trigger] s[i])
}

/// `s` without the one plus sign that may lead an index.
pub open spec fn unsigned_part(s: Seq<char>) -> Seq<char> {
    if s.len() > 0 && s[0] == '+' {
        s.skip(1)
    } else {
        s
    }
}

/// The index that `s` denotes: an optional plus sign and decimal digits whose
/// value fits a `usize`. Anything else denotes no index.
pub open spec fn parse_index(s: Seq<char>) -> Option<usize> {
    let digits = unsigned_part(s);
    if is_number(digits) && digits_value(digits) <= usize::MAX {
        Some(digits_value(digits) as usize)
    } else {
        None
    }
}

/// An element name taken apart.
pub struct ElementName {
    /// The element's own name: the whole name where it is plain.
    pub base: Vec<char>,
    /// Whether the name holds a separator.
    pub compound: bool,
    /// The part's index, where the name is compound and gives one.
    pub index: Option<usize>,
}

pub struct ElementNameView {
    pub base: Seq<char>,
    pub compound: bool,
    pub index: Option<usize>,
}

impl View for ElementName {
    type V = ElementNameView;

    open spec fn view(&self) -> ElementNameView {
        ElementNameView { base: self.base@, compound: self.compound, index: self.index }
    }
}

/// How a name reads: a compound name as its base and index, a plain name as
/// itself.
pub open spec fn parse_name(s: Seq<char>) -> ElementNameView {
    if has_separator(s) {
        ElementNameView {
            base: base_part(s),
            compound: true,
            index: parse_index(index_segment(s)),
        }
    } else {
        ElementNameView { base: s, compound: false, index: None }
    }
}

pub open spec fn digit_char(d: nat) -> char {
    if d == 0 {
        '0'
    } else if d == 1 {
        '1'
    } else if d == 2 {
        '2'
    } else if d == 3 {
        '3'
    } else if d == 4 {
        '4'
    } else if d == 5 {
        '5'
    } else if d == 6 {
        '6'
    } else if d == 7 {
        '7'
    } else if d == 8 {
        '8'
    } else {
        '9'
    }
}

/// `n` in decimal, without sign or leading zeros.
pub open spec fn decimal(n: nat) -> Seq<char>
    decreases n,
{
    if n < 10 {
        seq![digit_char(n)]
    } else {
        decimal(n / 10).push(digit_char(n % 10))
    }
}

/// The compound name of part `index` of `element`.
pub open spec fn compound_name(element: Seq<char>, index: nat) -> Seq<char> {
    element.push(SEPARATOR) + decimal(index)
}

/// A prefix that is free of separators and ends at one, or at the end of
/// `s`, is the first segment of `s`.
pub proof fn lemma_segment_len(s: Seq<char>, k: int)
    requires
        0 <= k <= s.len(),
        forall|j: int| 0 <= j < k ==> s[j] != SEPARATOR,
        k < s.len() ==> s[k] == SEPARATOR,
    ensures
        segment_len(s) == k,
    decreases k,
{
    if k > 0 {
        lemma_segment_len(s.skip(1), k - 1);
    }
}

/// A string of digits denotes at least what any of its prefixes denotes.
pub proof fn lemma_digits_value_prefix(s: Seq<char>, k: int)
    requires
        0 <= k <= s.len(),
    ensures
        digits_value(s.take(k)) <= digits_value(s),
    decreases s.len(),
{
    if k == s.len() {
        assert(s.take(k) =~= s);
    } else {
        lemma_digits_value_prefix(s.drop_last(), k);
        assert(s.drop_last().take(k) =~= s.take(k));
    }
}

/// No separator stands within the first segment.
pub proof fn lemma_segment_is_whole(s: Seq<char>, j: int)
    requires
        0 <= j < segment_len(s),
    ensures
        j < s.len(),
        s[j] != SEPARATOR,
    decreases j,
{
    if j > 0 {
        lemma_segment_is_whole(s.skip(1), j - 1);
    }
}

/// A number in decimal is a string of digits that denotes the number.
pub proof fn lemma_decimal_is_number(n: nat)
    ensures
        is_number(decimal(n)),
        digits_value(decimal(n)) == n,
    decreases n,
{
    if n < 10 {
        assert(decimal(n).drop_last() =~= Seq::<char>::empty());
        assert(digits_value(decimal(n).drop_last()) == 0);
    } else {
        lemma_decimal_is_number(n / 10);
        assert(decimal(n).drop_last() =~= decimal(n / 10));
    }
}

/// What is written as the compound name of a part reads back as that part,
/// provided that the element's own name holds no separator.
pub proof fn lemma_compound_name_reads_back(element: Seq<char>, index: usize)
    requires
        !has_separator(element),
    ensures
        parse_name(compound_name(element, index as nat)) == (ElementNameView {
            base: element,
            compound: true,
            index: Some(index),
        }),
{
    let digits = decimal(index as nat);
    let name = compound_name(element, index as nat);
    lemma_decimal_is_number(index as nat);
    assert forall|j: int| 0 <= j < element.len() implies name[j] != SEPARATOR by {
        lemma_segment_is_whole(element, j);
    }
    lemma_segment_len(name, element.len() as int);
    assert(name.take(element.len() as int) =~= element);
    let rest = name.skip(element.len() as int + 1);
    assert(rest =~= digits);
    assert forall|j: int| 0 <= j < digits.len() implies digits[j] != SEPARATOR by {
        assert(is_digit(digits[j]));
    }
    lemma_segment_len(digits, digits.len() as int);
    assert(digits.take(digits.len() as int) =~= digits);
    assert(is_digit(digits[0]));
}

/// The characters of `text`, in order.
pub fn to_chars(text: &str) -> (chars: Vec<char>)
    ensures
        chars@ == text@,
{
    let mut chars: Vec<char> = Vec::new();
    for c in it: text.chars()
        invariant
            chars@ == it.seq().take(it.index() as int),
    {
        chars.push(c);
    }
    chars
}

/// Whether two strings of characters are the same.
pub fn same_chars(a: &Vec<char>, b: &Vec<char>) -> (same: bool)
    ensures
        same == (a@ == b@),
{
    if a.len() != b.len() {
        return false;
    }
    let mut i: usize = 0;
    while i < a.len()
        invariant
            a.len() == b.len(),
            i <= a.len(),
            forall|j: int| 0 <= j < i ==> a@[j] == b@[j],
        decreases a.len() - i,
    {
        if a[i] != b[i] {
            return false;
        }
        i += 1;
    }
    assert(a@ =~= b@);
    true
}

/// The end of the segment that starts at `from`: the position of the next
/// separator, or the end of `chars`.
fn segment_end(chars: &Vec<char>, from: usize) -> (end: usize)
    requires
        from <= chars.len(),
    ensures
        from <= end <= chars.len(),
        end - from == segment_len(chars@.skip(from as int)),
{
    let mut end: usize = from;
    while end < chars.len() && chars[end] != SEPARATOR
        invariant
            from <= end <= chars.len(),
            forall|j: int| from <= j < end ==> chars@[j] != SEPARATOR,
        decreases chars.len() - end,
    {
        end += 1;
    }
    proof {
        lemma_segment_len(chars@.skip(from as int), end - from);
    }
    end
}

/// Reads `chars[from..to]` as an index.
fn read_index(chars: &Vec<char>, from: usize, to: usize) -> (index: Option<usize>)
    requires
        from <= to <= chars.len(),
    ensures
        index == parse_index(chars@.subrange(from as int, to as int)),
{
    let ghost text = chars@.subrange(from as int, to as int);
    let start: usize = if from < to && chars[from] == '+' {
        from + 1
    } else {
        from
    };
    let ghost digits = chars@.subrange(start as int, to as int);
    assert(digits =~= unsigned_part(text));
    if start == to {
        return None;
    }
    let mut value: usize = 0;
    let mut i: usize = start;
    while i < to
        invariant
            start <= i <= to <= chars.len(),
            digits == chars@.subrange(start as int, to as int),
            digits == unsigned_part(chars@.subrange(from as int, to as int)),
            forall|j: int| 0 <= j < i - start ==> is_digit(#[trigger] digits[j]),
            value == digits_value(digits.take(i - start)),
        decreases to - i,
    {
        let c: char = chars[i];
        assert(c == digits[i - start]);
        if c < '0' || c > '9' {
            return None;
        }
        let d: usize = (c as u32 - '0' as u32) as usize;
        let ghost longer = digits.take(i - start + 1);
        assert(longer.drop_last() =~= digits.take(i - start));
        assert(digits_value(longer) == 10 * value + d);
        proof {
            lemma_digits_value_prefix(digits, i - start + 1);
        }
        let tens: usize = match value.checked_mul(10) {
            Some(tens) => tens,
            None => {
                return None;
            },
        };
        value = match tens.checked_add(d) {
            Some(sum) => sum,
            None => {
                return None;
            },
        };
        i += 1;
    }
    assert(digits.take(to - start) =~= digits);
    Some(value)
}

/// Takes an element name apart.
pub fn parse_element_name(name: &str) -> (parsed: ElementName)
    ensures
        parsed@ == parse_name(name@),
{
    let mut chars = to_chars(name);
    let first = segment_end(&chars, 0);
    assert(chars@.skip(0) =~= chars@);
    if first == chars.len() {
        return ElementName { base: chars, compound: false, index: None };
    }
    let second = segment_end(&chars, first + 1);
    let index = read_index(&chars, first + 1, second);
    assert(chars@.subrange(first + 1, second as int) =~= index_segment(chars@));
    chars.truncate(first);
    assert(chars@ =~= base_part(name@));
    ElementName { base: chars, compound: true, index }
}

/// The one-character text of a decimal digit.
fn digit_text(d: usize) -> (text: &'static str)
    requires
        d < 10,
    ensures
        text@ == seq![digit_char(d as nat)],
{
    proof {
        reveal_strlit("0");
        reveal_strlit("1");
        reveal_strlit("2");
        reveal_strlit("3");
        reveal_strlit("4");
        reveal_strlit("5");
        reveal_strlit("6");
        reveal_strlit("7");
        reveal_strlit("8");
        reveal_strlit("9");
    }
    let text = match d {
        0 => "0",
        1 => "1",
        2 => "2",
        3 => "3",
        4 => "4",
        5 => "5",
        6 => "6",
        7 => "7",
        8 => "8",
        _ => "9",
    };
    assert(text@ =~= seq![digit_char(d as nat)]);
    text
}

/// Appends `n` in decimal to `text`.
fn append_decimal(text: &mut String, n: usize)
    ensures
        final(text)@ == old(text)@ + decimal(n as nat),
    decreases n,
{
    if n >= 10 {
        append_decimal(text, n / 10);
    }
    text.append(digit_text(n % 10));
    assert(text@ =~= old(text)@ + decimal(n as nat));
}

/// Writes the compound name of part `index` of `element`.
pub fn write_compound_name(element: &str, index: usize) -> (name: String)
    ensures
        name@ == compound_name(element@, index as nat),
{
    proof {
        reveal_strlit(".");
    }
    let mut name = String::from_str(element);
    name.append(".");
    assert(name@ =~= element@.push(SEPARATOR));
    append_decimal(&mut name, index);
    name
}

} // verus!

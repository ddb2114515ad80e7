//! Text primitives: equality, order, search and assembly of strings.
//!
//! Every function is stated over the view of a string, its sequence of characters.

use vstd::prelude::*;
use vstd::string::*;
use vstd::utf8::*;

verus! {

/// `String::push` appends one character to the end of the string.
pub assume_specification[ std::string::String::push ](text: &mut std::string::String, character: char)
    ensures
        final(text)@ == old(text)@.push(character),
;

/// Whether Unicode counts a character as white space.
pub open spec fn is_white_space(character: char) -> bool {
    ||| '\t' <= character && character <= '\r'
    ||| character == ' '
    ||| character == '\u{85}'
    ||| character == '\u{a0}'
    ||| character == '\u{1680}'
    ||| '\u{2000}' <= character && character <= '\u{200a}'
    ||| character == '\u{2028}'
    ||| character == '\u{2029}'
    ||| character == '\u{202f}'
    ||| character == '\u{205f}'
    ||| character == '\u{3000}'
}

/// The place, from `from` on, of the first character that is not white space.
pub open spec fn visible_from(text: Seq<char>, from: int) -> int
    decreases text.len() - from,
{
    if from < 0 || from >= text.len() || !is_white_space(text[from]) {
        from
    } else {
        visible_from(text, from + 1)
    }
}

/// The end of the first `count` characters without the white space that ends them.
pub open spec fn visible_until(text: Seq<char>, count: int) -> int
    decreases count,
{
    if count <= 0 || !is_white_space(text[count - 1]) {
        count
    } else {
        visible_until(text, count - 1)
    }
}

/// A string without the white space at its ends.
pub open spec fn trimmed(text: Seq<char>) -> Seq<char> {
    let end = visible_until(text, text.len() as int);
    if end <= 0 {
        Seq::empty()
    } else {
        text.subrange(visible_from(text, 0), end)
    }
}

/// Calls `str::trim`, which removes what Unicode counts as white space from both ends and nothing
/// else.
#[verifier::external_body]
pub(crate) fn trim_text(text: &str) -> (result: &str)
    ensures
        result@ == trimmed(text@),
{
    text.trim()
}

/// Returns the characters of `text` in order.
pub fn chars_of(text: &str) -> (chars: Vec<char>)
    ensures
        chars@ == text@,
{
    let mut chars: Vec<char> = Vec::new();
    for character in it: text.chars()
        invariant
            chars@ == it.seq().take(it.index() as int),
            it.seq() == text@,
    {
        chars.push(character);
    }
    chars
}

/// Assembles a string from characters.
pub fn text_of(chars: &[char]) -> (text: String)
    ensures
        text@ == chars@,
{
    let mut text = String::new();
    let mut index: usize = 0;
    while index < chars.len()
        invariant
            index <= chars@.len(),
            text@ == chars@.take(index as int),
        decreases chars@.len() - index,
    {
        text.push(chars[index]);
        index += 1;
    }
    assert(chars@.take(index as int) == chars@);
    text
}

/// Assembles a string from the characters of `chars` between `start` and `end`.
pub fn text_between(chars: &Vec<char>, start: usize, end: usize) -> (text: String)
    requires
        start <= end <= chars@.len(),
    ensures
        text@ == chars@.subrange(start as int, end as int),
{
    let mut text = String::new();
    let mut index: usize = start;
    while index < end
        invariant
            start <= index <= end <= chars@.len(),
            text@ == chars@.subrange(start as int, index as int),
        decreases end - index,
    {
        text.push(chars[index]);
        index += 1;
        assert(chars@.subrange(start as int, index as int)
            == chars@.subrange(start as int, index - 1).push(chars@[index - 1]));
    }
    text
}

/// Returns whether two byte sequences are the same.
pub fn same_bytes(left: &[u8], right: &[u8]) -> (same: bool)
    ensures
        same == (left@ == right@),
{
    if left.len() != right.len() {
        return false;
    }
    let mut index: usize = 0;
    while index < left.len()
        invariant
            index <= left@.len(),
            left@.len() == right@.len(),
            forall|i: int| 0 <= i < index ==> left@[i] == right@[i],
        decreases left@.len() - index,
    {
        if left[index] != right[index] {
            return false;
        }
        index += 1;
    }
    assert(left@ == right@);
    true
}

/// Returns whether two strings hold the same characters.
pub fn same_text(left: &str, right: &str) -> (same: bool)
    ensures
        same == (left@ == right@),
{
    let same = same_bytes(left.as_bytes(), right.as_bytes());
    proof {
        encode_utf8_decode_utf8(left@);
        encode_utf8_decode_utf8(right@);
    }
    same
}

/// The value of an optional string.
pub open spec fn optional_view(text: Option<String>) -> Option<Seq<char>> {
    match text {
        Some(value) => Some(value@),
        None => None,
    }
}

/// Returns whether two optional strings are both absent or hold the same characters.
pub fn same_optional_text(left: &Option<String>, right: &Option<String>) -> (same: bool)
    ensures
        same == (optional_view(*left) == optional_view(*right)),
{
    match (left, right) {
        (Some(left), Some(right)) => same_text(left.as_str(), right.as_str()),
        (None, None) => true,
        _ => false,
    }
}

/// Copies an optional string.
pub fn clone_optional_text(text: &Option<String>) -> (copy: Option<String>)
    ensures
        optional_view(copy) == optional_view(*text),
        copy == *text,
{
    match text {
        Some(value) => Some(value.clone()),
        None => None,
    }
}

/// The values of a list of strings.
pub open spec fn texts(list: Seq<String>) -> Seq<Seq<char>> {
    list.map_values(|text: String| text@)
}

/// Copies a list of strings.
pub fn clone_texts(list: &Vec<String>) -> (copy: Vec<String>)
    ensures
        copy@ == list@,
        texts(copy@) == texts(list@),
{
    let mut copy: Vec<String> = Vec::new();
    let mut index: usize = 0;
    while index < list.len()
        invariant
            index <= list@.len(),
            copy@ == list@.take(index as int),
        decreases list@.len() - index,
    {
        copy.push(list[index].clone());
        index += 1;
    }
    assert(list@.take(index as int) == list@);
    copy
}

/// Returns whether a list of strings holds `text`.
pub fn holds_text(list: &Vec<String>, text: &str) -> (found: bool)
    ensures
        found == texts(list@).contains(text@),
{
    let mut index: usize = 0;
    while index < list.len()
        invariant
            index <= list@.len(),
            forall|i: int| 0 <= i < index ==> texts(list@)[i] != text@,
        decreases list@.len() - index,
    {
        if same_text(list[index].as_str(), text) {
            assert(texts(list@)[index as int] == text@);
            return true;
        }
        index += 1;
    }
    false
}

/// Returns whether two lists of strings hold the same strings in the same order.
pub fn same_texts(left: &Vec<String>, right: &Vec<String>) -> (same: bool)
    ensures
        same == (texts(left@) == texts(right@)),
{
    if left.len() != right.len() {
        assert(texts(left@).len() != texts(right@).len());
        return false;
    }
    let mut index: usize = 0;
    while index < left.len()
        invariant
            index <= left@.len(),
            left@.len() == right@.len(),
            forall|i: int| 0 <= i < index ==> texts(left@)[i] == texts(right@)[i],
        decreases left@.len() - index,
    {
        if !same_text(left[index].as_str(), right[index].as_str()) {
            assert(texts(left@)[index as int] != texts(right@)[index as int]);
            return false;
        }
        index += 1;
    }
    assert(texts(left@) =~= texts(right@));
    true
}

/// Concatenates two strings.
pub fn join2(a: &str, b: &str) -> (text: String)
    ensures
        text@ == a@ + b@,
{
    let mut text = a.to_owned();
    text.append(b);
    text
}

/// Concatenates three strings.
pub fn join3(a: &str, b: &str, c: &str) -> (text: String)
    ensures
        text@ == a@ + b@ + c@,
{
    let mut text = join2(a, b);
    text.append(c);
    text
}

/// Concatenates four strings.
pub fn join4(a: &str, b: &str, c: &str, d: &str) -> (text: String)
    ensures
        text@ == a@ + b@ + c@ + d@,
{
    let mut text = join3(a, b, c);
    text.append(d);
    text
}

/// Concatenates five strings.
pub fn join5(a: &str, b: &str, c: &str, d: &str, e: &str) -> (text: String)
    ensures
        text@ == a@ + b@ + c@ + d@ + e@,
{
    let mut text = join4(a, b, c, d);
    text.append(e);
    text
}

/// Concatenates six strings.
pub fn join6(a: &str, b: &str, c: &str, d: &str, e: &str, f: &str) -> (text: String)
    ensures
        text@ == a@ + b@ + c@ + d@ + e@ + f@,
{
    let mut text = join5(a, b, c, d, e);
    text.append(f);
    text
}

/// Concatenates seven strings.
pub fn join7(a: &str, b: &str, c: &str, d: &str, e: &str, f: &str, g: &str) -> (text: String)
    ensures
        text@ == a@ + b@ + c@ + d@ + e@ + f@ + g@,
{
    let mut text = join6(a, b, c, d, e, f);
    text.append(g);
    text
}

/// The strings of a list with `separator` between each two of them.
pub open spec fn joined(parts: Seq<Seq<char>>, separator: Seq<char>) -> Seq<char>
    decreases parts.len(),
{
    if parts.len() == 0 {
        Seq::empty()
    } else if parts.len() == 1 {
        parts[0]
    } else {
        joined(parts.drop_last(), separator) + separator + parts.last()
    }
}

/// Joins a list of strings with `separator` between each two of them.
pub fn join_texts(parts: &Vec<String>, separator: &str) -> (text: String)
    ensures
        text@ == joined(texts(parts@), separator@),
{
    let mut text = String::new();
    let mut index: usize = 0;
    while index < parts.len()
        invariant
            index <= parts@.len(),
            text@ == joined(texts(parts@.take(index as int)), separator@),
        decreases parts@.len() - index,
    {
        proof {
            let next = texts(parts@.take(index + 1));
            assert(next.drop_last() =~= texts(parts@.take(index as int)));
            assert(next.last() == parts@[index as int]@);
        }
        if index > 0 {
            text.append(separator);
        }
        text.append(parts[index].as_str());
        assert(index == 0 ==> text@ =~= parts@[0]@);
        index += 1;
    }
    assert(parts@.take(index as int) == parts@);
    text
}

/// The pieces of `text` between the occurrences of `separator`.
pub open spec fn split_on(text: Seq<char>, separator: char) -> Seq<Seq<char>>
    decreases text.len(),
{
    if text.len() == 0 {
        seq![Seq::empty()]
    } else {
        let before = split_on(text.drop_last(), separator);
        if text.last() == separator {
            before.push(Seq::empty())
        } else {
            before.update(before.len() - 1, before.last().push(text.last()))
        }
    }
}

/// A split has at least one piece, and none of them holds the separator.
pub proof fn lemma_split_pieces(text: Seq<char>, separator: char)
    ensures
        split_on(text, separator).len() >= 1,
        forall|i: int|
            0 <= i < split_on(text, separator).len() ==> !(#[trigger] split_on(
                text,
                separator,
            )[i]).contains(separator),
    decreases text.len(),
{
    if text.len() > 0 {
        lemma_split_pieces(text.drop_last(), separator);
        let before = split_on(text.drop_last(), separator);
        let pieces = split_on(text, separator);
        assert forall|i: int| 0 <= i < pieces.len() implies !(#[trigger] pieces[i]).contains(
            separator,
        ) by {
            if text.last() == separator {
                if i < before.len() {
                    assert(pieces[i] == before[i]);
                }
            } else if i == before.len() - 1 {
                let piece = before.last().push(text.last());
                assert(pieces[i] == piece);
                assert(!before[i].contains(separator));
                if piece.contains(separator) {
                    let k = choose|k: int| 0 <= k < piece.len() && piece[k] == separator;
                    if k < before.last().len() {
                        assert(before.last()[k] == separator);
                        assert(before[i].contains(separator));
                    }
                }
            } else {
                assert(pieces[i] == before[i]);
            }
        }
    }
}

/// Joining the pieces of a split with its separator gives the text back.
pub proof fn lemma_split_join(text: Seq<char>, separator: char)
    ensures
        joined(split_on(text, separator), seq![separator]) == text,
    decreases text.len(),
{
    if text.len() == 0 {
    } else {
        let before = split_on(text.drop_last(), separator);
        lemma_split_pieces(text.drop_last(), separator);
        lemma_split_join(text.drop_last(), separator);
        let pieces = split_on(text, separator);
        if text.last() == separator {
            assert(pieces.drop_last() =~= before);
            assert(joined(pieces, seq![separator]) =~= text.drop_last() + seq![separator]
                + Seq::<char>::empty());
            assert(joined(pieces, seq![separator]) =~= text);
        } else {
            assert(pieces.drop_last() =~= before.drop_last());
            assert(pieces.last() == before.last().push(text.last()));
            if before.len() == 1 {
                assert(joined(pieces, seq![separator]) =~= text);
            } else {
                let head = joined(before.drop_last(), seq![separator]) + seq![separator];
                assert(text.drop_last() == head + before.last());
                assert(joined(pieces, seq![separator]) == head + pieces.last());
                assert((head + before.last()).push(text.last()) =~= head + pieces.last());
                assert(text.drop_last().push(text.last()) =~= text);
            }
        }
    }
}

/// Splits `text` at every occurrence of `separator`.
pub fn split_text(text: &str, separator: char) -> (pieces: Vec<String>)
    ensures
        texts(pieces@) == split_on(text@, separator),
        pieces@.len() >= 1,
{
    let chars = chars_of(text);
    let mut done: Vec<String> = Vec::new();
    let mut piece = String::new();
    let mut index: usize = 0;
    assert(texts(done@).push(piece@) =~= split_on(chars@.take(0), separator));
    while index < chars.len()
        invariant
            index <= chars@.len(),
            texts(done@).push(piece@) == split_on(chars@.take(index as int), separator),
        decreases chars@.len() - index,
    {
        let character = chars[index];
        let ghost before = texts(done@).push(piece@);
        let ghost done_before = done@;
        assert(chars@.take(index + 1).drop_last() =~= chars@.take(index as int));
        assert(chars@.take(index + 1).last() == character);
        if character == separator {
            done.push(piece);
            piece = String::new();
            assert(texts(done@) =~= before);
        } else {
            piece.push(character);
            assert(texts(done@).push(piece@) =~= before.update(
                before.len() - 1,
                before.last().push(character),
            ));
        }
        index += 1;
    }
    assert(chars@.take(index as int) == chars@);
    let ghost parts = texts(done@).push(piece@);
    done.push(piece);
    assert(texts(done@) =~= parts);
    done
}

/// Returns whether `text` begins with `prefix`.
pub fn starts_with(text: &str, prefix: &str) -> (found: bool)
    ensures
        found == prefix@.is_prefix_of(text@),
{
    let chars = chars_of(text);
    let start = chars_of(prefix);
    chars_start_with(&chars, &start)
}

/// Returns whether `chars` begins with `prefix`.
pub fn chars_start_with(chars: &Vec<char>, prefix: &Vec<char>) -> (found: bool)
    ensures
        found == prefix@.is_prefix_of(chars@),
{
    if prefix.len() > chars.len() {
        return false;
    }
    holds_at(chars, 0, prefix)
}

/// Returns whether `part` stands in `chars` at `start`.
pub fn holds_at(chars: &Vec<char>, start: usize, part: &Vec<char>) -> (found: bool)
    requires
        start + part@.len() <= chars@.len(),
    ensures
        found == (chars@.subrange(start as int, start + part@.len()) == part@),
{
    let length: usize = chars.len();
    let mut index: usize = 0;
    while index < part.len()
        invariant
            index <= part@.len(),
            length == chars@.len(),
            start + part@.len() <= chars@.len(),
            forall|i: int| 0 <= i < index ==> chars@[start + i] == part@[i],
        decreases part@.len() - index,
    {
        if chars[start + index] != part[index] {
            assert(chars@.subrange(start as int, start + part@.len())[index as int]
                != part@[index as int]);
            return false;
        }
        index += 1;
    }
    assert(chars@.subrange(start as int, start + part@.len()) =~= part@);
    true
}

/// `text` with `other` in place of each occurrence of `part`, taken from the left.
pub open spec fn text_replaced(text: Seq<char>, part: Seq<char>, other: Seq<char>) -> Seq<char>
    decreases text.len(),
{
    if text.len() == 0 {
        Seq::empty()
    } else if part.len() > 0 && part.is_prefix_of(text) {
        other + text_replaced(text.skip(part.len() as int), part, other)
    } else {
        seq![text[0]] + text_replaced(text.skip(1), part, other)
    }
}

/// Returns `text` with `other` in place of each occurrence of `part`, taken from the left.
pub fn replace_text(text: &str, part: &str, other: &str) -> (result: String)
    ensures
        result@ == text_replaced(text@, part@, other@),
{
    let chars = chars_of(text);
    let wanted = chars_of(part);
    let length: usize = chars.len();
    let mut result = String::new();
    let mut index: usize = 0;
    assert(text@.skip(0) =~= text@);
    assert(result@ + text_replaced(text@, part@, other@) =~= text_replaced(text@, part@, other@));
    while index < length
        invariant
            chars@ == text@,
            wanted@ == part@,
            length == chars@.len(),
            index <= length,
            result@ + text_replaced(text@.skip(index as int), part@, other@) == text_replaced(
                text@,
                part@,
                other@,
            ),
        decreases length - index,
    {
        let ghost rest = text@.skip(index as int);
        let ghost before = result@;
        if wanted.len() > 0 && wanted.len() <= length - index && holds_at(&chars, index, &wanted) {
            assert(rest.take(part@.len() as int) =~= text@.subrange(
                index as int,
                index + part@.len(),
            ));
            assert(part@.is_prefix_of(rest));
            assert(rest.skip(part@.len() as int) =~= text@.skip(index + part@.len()));
            result.append(other);
            assert(result@ + text_replaced(rest.skip(part@.len() as int), part@, other@)
                =~= before + (other@ + text_replaced(
                rest.skip(part@.len() as int),
                part@,
                other@,
            )));
            index += wanted.len();
        } else {
            assert(!(part@.len() > 0 && part@.is_prefix_of(rest))) by {
                if part@.len() > 0 && part@.is_prefix_of(rest) {
                    assert(rest.take(part@.len() as int) =~= text@.subrange(
                        index as int,
                        index + part@.len(),
                    ));
                }
            }
            result.push(chars[index]);
            assert(rest.skip(1) =~= text@.skip(index + 1));
            assert(rest[0] == chars@[index as int]);
            assert(result@ + text_replaced(rest.skip(1), part@, other@) =~= before + (seq![rest[0]]
                + text_replaced(rest.skip(1), part@, other@)));
            index += 1;
        }
    }
    assert(text@.skip(index as int).len() == 0);
    assert(result@ + Seq::<char>::empty() =~= result@);
    result
}

/// Whether `part` occurs in `text`.
pub open spec fn occurs(part: Seq<char>, text: Seq<char>) -> bool {
    exists|start: int| #[trigger] occurs_at(part, text, start)
}

/// Whether `part` occurs in `text` at `start`.
pub open spec fn occurs_at(part: Seq<char>, text: Seq<char>, start: int) -> bool {
    &&& 0 <= start
    &&& start + part.len() <= text.len()
    &&& text.subrange(start, start + part.len()) == part
}

/// Returns whether `part` occurs in `text`.
pub fn contains_text(text: &str, part: &str) -> (found: bool)
    ensures
        found == occurs(part@, text@),
{
    let chars = chars_of(text);
    let wanted = chars_of(part);
    if wanted.len() > chars.len() {
        return false;
    }
    let last: usize = chars.len() - wanted.len();
    let mut start: usize = 0;
    while start < last
        invariant
            chars@ == text@,
            wanted@ == part@,
            last == chars@.len() - wanted@.len(),
            start <= last,
            forall|i: int| 0 <= i < start ==> !occurs_at(part@, text@, i),
        decreases last - start,
    {
        if holds_at(&chars, start, &wanted) {
            assert(occurs_at(part@, text@, start as int));
            return true;
        }
        start += 1;
    }
    let found = holds_at(&chars, last, &wanted);
    assert(found == occurs_at(part@, text@, last as int));
    found
}

/// Returns whether `text` holds `character`.
pub fn contains_char(text: &str, character: char) -> (found: bool)
    ensures
        found == text@.contains(character),
{
    let chars = chars_of(text);
    let mut index: usize = 0;
    while index < chars.len()
        invariant
            chars@ == text@,
            index <= chars@.len(),
            forall|i: int| 0 <= i < index ==> chars@[i] != character,
        decreases chars@.len() - index,
    {
        if chars[index] == character {
            return true;
        }
        index += 1;
    }
    false
}

/// The decimal digit of value `digit`.
pub open spec fn digit_char(digit: nat) -> char {
    if digit == 0 {
        '0'
    } else if digit == 1 {
        '1'
    } else if digit == 2 {
        '2'
    } else if digit == 3 {
        '3'
    } else if digit == 4 {
        '4'
    } else if digit == 5 {
        '5'
    } else if digit == 6 {
        '6'
    } else if digit == 7 {
        '7'
    } else if digit == 8 {
        '8'
    } else {
        '9'
    }
}

/// The decimal numeral of `number`, without leading zeros.
pub open spec fn decimal(number: nat) -> Seq<char>
    decreases number,
{
    if number < 10 {
        seq![digit_char(number)]
    } else {
        decimal(number / 10).push(digit_char(number % 10))
    }
}

fn digit_of(digit: u64) -> (character: char)
    requires
        digit < 10,
    ensures
        character == digit_char(digit as nat),
{
    match digit {
        0 => '0',
        1 => '1',
        2 => '2',
        3 => '3',
        4 => '4',
        5 => '5',
        6 => '6',
        7 => '7',
        8 => '8',
        _ => '9',
    }
}

/// Renders `number` as a decimal numeral.
pub fn decimal_text(number: u64) -> (text: String)
    ensures
        text@ == decimal(number as nat),
    decreases number,
{
    if number < 10 {
        let mut text = String::new();
        text.push(digit_of(number));
        assert(text@ =~= seq![digit_char(number as nat)]);
        text
    } else {
        let mut text = decimal_text(number / 10);
        text.push(digit_of(number % 10));
        text
    }
}

} // verus!

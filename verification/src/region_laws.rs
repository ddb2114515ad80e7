//! Laws of managed regions: replacing the contents of one region gives a file in which that
//! region reads as replaced and every other region as before.

use vstd::prelude::*;
use vstd::string::*;
use vstd::utf8::encode_utf8;

use crate::digest::{hex, is_lower_hex, sha256};
use crate::region::{
    before_blanks, before_breaks, blanks_from, digits_value, field_added, fields_of, first_at,
    is_blank, is_id_char, is_region_hash, is_region_id, is_replacement, is_space,
    lemma_before_breaks, lemma_line_length, lemma_regions_placed, line_kept, line_length,
    line_marker, line_read, marker_text, no_regions, number_of, payload_end, payload_marker,
    place_of, reconciled, region_closed, region_place, regions_of, replaced, stands_at, text_read, token_place, words,
    words_so_far, FieldsModel, MarkerModel, OpenModel, ParserModel, RegionModel, BEGIN_TOKEN,
    END_TOKEN,
};
use crate::state::{RecordModel, MANAGED_MARKER_VERSION};
use crate::text::{decimal, digit_char, occurs, occurs_at};

verus! {

// Lines.
proof fn lemma_line_length_prefix(a: Seq<char>, b: Seq<char>, at: int)
    requires
        0 <= at < a.len(),
        a.last() == '\n',
    ensures
        line_length(a + b, at) == line_length(a, at),
    decreases a.len() - at,
{
    assert((a + b)[at] == a[at]);
    if a[at] != '\n' {
        lemma_line_length_prefix(a, b, at + 1);
    }
}

/// Reading whole lines and then more text is reading all of it.
pub proof fn lemma_read_concat(parser: ParserModel, a: Seq<char>, b: Seq<char>, at: int)
    requires
        a.len() == 0 || a.last() == '\n',
    ensures
        text_read(parser, a + b, at) == match text_read(parser, a, at) {
            Err(message) => Err::<ParserModel, Seq<char>>(message),
            Ok(next) => text_read(next, b, at + a.len()),
        },
    decreases a.len(),
{
    if a.len() == 0 {
        assert(a + b =~= b);
    } else {
        lemma_line_length(a, 0);
        lemma_line_length_prefix(a, b, 0);
        let length = line_length(a, 0);
        assert((a + b).take(length) =~= a.take(length));
        assert((a + b).skip(length) =~= a.skip(length) + b);
        match line_read(parser, a.take(length), at) {
            Err(_) => {},
            Ok(next) => {
                lemma_read_concat(next, a.skip(length), b, at + length);
            },
        }
    }
}

proof fn lemma_read_line(parser: ParserModel, line: Seq<char>, at: int)
    requires
        line.len() > 0,
        line_length(line, 0) == line.len(),
    ensures
        text_read(parser, line, at) == line_read(parser, line, at),
{
    assert(line.take(line.len() as int) =~= line);
    match line_read(parser, line, at) {
        Err(_) => {},
        Ok(next) => {
            assert(line.skip(line.len() as int).len() == 0);
            assert(text_read(next, line.skip(line.len() as int), at + line.len()) == Ok::<
                ParserModel,
                Seq<char>,
            >(next));
        },
    }
}

/// A line with a line feed only at its end is its own first line.
proof fn lemma_single_line(line: Seq<char>, at: int)
    requires
        0 <= at < line.len(),
        line.last() == '\n',
        forall|i: int| 0 <= i < line.len() - 1 ==> line[i] != '\n',
    ensures
        line_length(line, at) == line.len(),
    decreases line.len() - at,
{
    if line[at] == '\n' {
        assert(at == line.len() - 1);
    } else {
        lemma_single_line(line, at + 1);
    }
}

// Searching.
proof fn lemma_first_at(part: Seq<char>, text: Seq<char>, from: int)
    requires
        0 <= from,
    ensures
        match first_at(part, text, from) {
            Some(at) => from <= at && occurs_at(part, text, at) && forall|i: int|
                from <= i < at ==> !#[trigger] occurs_at(part, text, i),
            None => forall|i: int| from <= i ==> !#[trigger] occurs_at(part, text, i),
        },
    decreases text.len() - from + 1,
{
    if from + part.len() <= text.len() && !occurs_at(part, text, from) {
        lemma_first_at(part, text, from + 1);
    }
}

proof fn lemma_first_at_is(part: Seq<char>, text: Seq<char>, from: int, at: int)
    requires
        0 <= from <= at,
        occurs_at(part, text, at),
        forall|i: int| from <= i < at ==> !#[trigger] occurs_at(part, text, i),
    ensures
        first_at(part, text, from) == Some(at),
{
    lemma_first_at(part, text, from);
    match first_at(part, text, from) {
        Some(found) => {
            if found < at {
                assert(!occurs_at(part, text, found));
            }
            if at < found {
                assert(!occurs_at(part, text, at));
            }
        },
        None => {
            assert(!occurs_at(part, text, at));
        },
    }
}

/// Both tokens begin alike, and go on differently.
proof fn lemma_tokens()
    ensures
        "omnius:managed-"@.len() == 15,
        BEGIN_TOKEN@.len() == 20,
        END_TOKEN@.len() == 18,
        BEGIN_TOKEN@.take(15) == "omnius:managed-"@,
        END_TOKEN@.take(15) == "omnius:managed-"@,
        BEGIN_TOKEN@[15] == 'b',
        END_TOKEN@[15] == 'e',
        BEGIN_TOKEN@[0] == 'o',
        forall|i: int| 0 <= i < 20 ==> !is_space(#[trigger] BEGIN_TOKEN@[i]),
        forall|i: int| 0 <= i < 20 ==> #[trigger] BEGIN_TOKEN@[i] != '\n',
{
    reveal_strlit("omnius:managed-");
    reveal_strlit("omnius:managed-begin");
    reveal_strlit("omnius:managed-end");
    assert(BEGIN_TOKEN@.take(15) =~= "omnius:managed-"@);
    assert(END_TOKEN@.take(15) =~= "omnius:managed-"@);
    assert forall|i: int| 0 <= i < 20 implies !is_space(#[trigger] BEGIN_TOKEN@[i])
        && BEGIN_TOKEN@[i] != '\n' by {
        assert(i == 0 || i == 1 || i == 2 || i == 3 || i == 4 || i == 5 || i == 6 || i == 7 || i
            == 8 || i == 9 || i == 10 || i == 11 || i == 12 || i == 13 || i == 14 || i == 15 || i
            == 16 || i == 17 || i == 18 || i == 19);
    }
}

proof fn lemma_no_token(line: Seq<char>, start: int)
    requires
        0 <= start,
        !occurs("omnius:managed-"@, line),
    ensures
        token_place(line, start) is None,
{
    lemma_tokens();
    lemma_first_at(BEGIN_TOKEN@, line, start);
    lemma_first_at(END_TOKEN@, line, start);
    if let Some(at) = first_at(BEGIN_TOKEN@, line, start) {
        assert(line.subrange(at, at + 20).take(15) =~= line.subrange(at, at + 15));
        assert(occurs_at("omnius:managed-"@, line, at));
    }
    if let Some(at) = first_at(END_TOKEN@, line, start) {
        assert(line.subrange(at, at + 18).take(15) =~= line.subrange(at, at + 15));
        assert(occurs_at("omnius:managed-"@, line, at));
    }
}

proof fn lemma_blanks_from(line: Seq<char>, at: int)
    requires
        0 <= at <= line.len(),
    ensures
        at <= blanks_from(line, at) <= line.len(),
        forall|i: int| at <= i < blanks_from(line, at) ==> is_blank(#[trigger] line[i]),
        blanks_from(line, at) < line.len() ==> !is_blank(line[blanks_from(line, at)]),
    decreases line.len() - at,
{
    if at < line.len() && is_blank(line[at]) {
        lemma_blanks_from(line, at + 1);
    }
}

proof fn lemma_blanks_from_is(line: Seq<char>, at: int, end: int)
    requires
        0 <= at <= end < line.len(),
        forall|i: int| at <= i < end ==> is_blank(#[trigger] line[i]),
        !is_blank(line[end]),
    ensures
        blanks_from(line, at) == end,
    decreases end - at,
{
    if at < end {
        assert(is_blank(line[at]));
        lemma_blanks_from_is(line, at + 1, end);
    }
}

proof fn lemma_before_blanks(line: Seq<char>, end: int)
    requires
        0 <= end <= line.len(),
    ensures
        0 <= before_blanks(line, end) <= end,
        forall|i: int| before_blanks(line, end) <= i < end ==> is_blank(#[trigger] line[i]),
        before_blanks(line, end) > 0 ==> !is_blank(line[before_blanks(line, end) - 1]),
    decreases end,
{
    if 0 < end && is_blank(line[end - 1]) {
        lemma_before_blanks(line, end - 1);
    }
}

proof fn lemma_before_blanks_is(line: Seq<char>, end: int, at: int)
    requires
        0 < at <= end <= line.len(),
        forall|i: int| at <= i < end ==> is_blank(#[trigger] line[i]),
        !is_blank(line[at - 1]),
    ensures
        before_blanks(line, end) == at,
    decreases end - at,
{
    if at < end {
        assert(is_blank(line[end - 1]));
        lemma_before_blanks_is(line, end - 1, at);
    }
}

proof fn lemma_before_breaks_is(line: Seq<char>, end: int, at: int)
    requires
        0 < at <= end <= line.len(),
        forall|i: int| at <= i < end ==> line[i] == '\r' || line[i] == '\n',
        line[at - 1] != '\r' && line[at - 1] != '\n',
    ensures
        before_breaks(line, end) == at,
    decreases end - at,
{
    if at < end {
        lemma_before_breaks_is(line, end - 1, at);
    }
}

// Words.
proof fn lemma_words_extend(text: Seq<char>, word: Seq<char>)
    requires
        forall|i: int| 0 <= i < word.len() ==> !is_space(#[trigger] word[i]),
    ensures
        words_so_far(text + word) == (words_so_far(text).0, words_so_far(text).1 + word),
    decreases word.len(),
{
    if word.len() == 0 {
        assert(text + word =~= text);
        assert(words_so_far(text).1 + word =~= words_so_far(text).1);
    } else {
        let shorter = word.drop_last();
        assert forall|i: int| 0 <= i < shorter.len() implies !is_space(#[trigger] shorter[i]) by {
            assert(shorter[i] == word[i]);
        }
        lemma_words_extend(text, shorter);
        assert((text + word).drop_last() =~= text + shorter);
        assert((text + word).last() == word[word.len() - 1]);
        assert(words_so_far(text).1 + word =~= (words_so_far(text).1 + shorter).push(word.last()));
    }
}

/// A further word behind a space.
proof fn lemma_words_next(text: Seq<char>, word: Seq<char>)
    requires
        words_so_far(text).1.len() > 0,
        forall|i: int| 0 <= i < word.len() ==> !is_space(#[trigger] word[i]),
    ensures
        words_so_far(text + (seq![' '] + word)) == (
            words_so_far(text).0.push(words_so_far(text).1),
            word,
        ),
{
    let spaced = text.push(' ');
    assert(spaced.drop_last() =~= text);
    assert(words_so_far(spaced) == (
        words_so_far(text).0.push(words_so_far(text).1),
        Seq::<char>::empty(),
    ));
    lemma_words_extend(spaced, word);
    assert(spaced + word =~= text + (seq![' '] + word));
    assert(Seq::<char>::empty() + word =~= word);
}

/// The first word of a text that begins with no space is its beginning.
proof fn lemma_first_word(text: Seq<char>)
    requires
        text.len() > 0,
        !is_space(text[0]),
    ensures
        words_so_far(text).0.len() == 0 ==> words_so_far(text).1 == text,
        words_so_far(text).0.len() > 0 ==> words_so_far(text).0[0].is_prefix_of(text),
        words(text).len() > 0,
        words(text)[0].is_prefix_of(text),
    decreases text.len(),
{
    let shorter = text.drop_last();
    if shorter.len() == 0 {
        assert(words_so_far(shorter) == (Seq::<Seq<char>>::empty(), Seq::<char>::empty()));
        assert(text.last() == text[0]);
        assert(words_so_far(text).1 =~= text);
    } else {
        assert(shorter[0] == text[0]);
        lemma_first_word(shorter);
        let (closed_words, word) = words_so_far(shorter);
        if closed_words.len() == 0 {
            assert(word == shorter);
            assert(shorter.push(text.last()) =~= text);
            assert(shorter.is_prefix_of(text));
        } else {
            assert(closed_words[0].is_prefix_of(text)) by {
                assert(closed_words[0] =~= shorter.take(closed_words[0].len() as int));
                assert(text.take(closed_words[0].len() as int) =~= shorter.take(
                    closed_words[0].len() as int,
                ));
            }
        }
    }
}

// Numbers.
proof fn lemma_digits_of_push(text: Seq<char>, more: char, count: int)
    requires
        0 <= count <= text.len(),
    ensures
        digits_value(text.push(more), count) == digits_value(text, count),
    decreases count,
{
    if count > 0 {
        lemma_digits_of_push(text, more, count - 1);
        assert(text.push(more)[count - 1] == text[count - 1]);
    }
}

/// A decimal numeral is made of digits and reads as its number.
pub proof fn lemma_decimal_reads(number: nat)
    ensures
        decimal(number).len() > 0,
        forall|i: int|
            0 <= i < decimal(number).len() ==> '0' <= #[trigger] decimal(number)[i] && decimal(
                number,
            )[i] <= '9',
        digits_value(decimal(number), decimal(number).len() as int) == Some(number),
        number <= u32::MAX ==> number_of(decimal(number)) == Some(number as u32),
    decreases number,
{
    if number < 10 {
        let text = seq![digit_char(number)];
        assert(decimal(number) =~= text);
        assert(digits_value(text, 0) == Some(0nat));
        assert(digits_value(text, 1) == Some(number));
    } else {
        lemma_decimal_reads(number / 10);
        let before = decimal(number / 10);
        let digit = digit_char(number % 10);
        let text = before.push(digit);
        assert(decimal(number) == text);
        lemma_digits_of_push(before, digit, before.len() as int);
        assert(text[before.len() as int] == digit);
        assert forall|i: int| 0 <= i < text.len() implies '0' <= #[trigger] text[i] && text[i]
            <= '9' by {
            if i < before.len() {
                assert(text[i] == before[i]);
            }
        }
    }
    assert(decimal(number)[0] != '+');
}

// The opening marker.
/// The fields of an opening marker.
spec fn marker_fields(id: Seq<char>, version: u32, hash: Seq<char>) -> Seq<char> {
    BEGIN_TOKEN@ + (" id="@ + id) + (" version="@ + decimal(version as nat)) + (" hash="@ + hash)
}

proof fn lemma_field(key: Seq<char>, value: Seq<char>)
    requires
        forall|i: int| 0 <= i < key.len() ==> #[trigger] key[i] != '=',
    ensures
        place_of(key + seq!['='] + value, '=', 0) == key.len(),
        (key + seq!['='] + value).take(key.len() as int) == key,
        (key + seq!['='] + value).skip(key.len() as int + 1) == value,
{
    let field = key + seq!['='] + value;
    lemma_place_of(field, '=', 0, key.len() as int);
    assert(field.take(key.len() as int) =~= key);
    assert(field.skip(key.len() as int + 1) =~= value);
}

proof fn lemma_place_of(text: Seq<char>, character: char, from: int, at: int)
    requires
        0 <= from <= at < text.len(),
        text[at] == character,
        forall|i: int| from <= i < at ==> text[i] != character,
    ensures
        place_of(text, character, from) == at,
    decreases at - from,
{
    if from < at {
        lemma_place_of(text, character, from + 1, at);
    }
}

proof fn lemma_fields_marker(
    id: Seq<char>,
    version: u32,
    hash: Seq<char>,
    prefix: Seq<char>,
    suffix: Seq<char>,
)
    requires
        is_region_id(id),
        is_region_hash(hash),
    ensures
        payload_marker(marker_fields(id, version, hash), prefix, suffix) == Ok::<
            Option<MarkerModel>,
            Seq<char>,
        >(Some(MarkerModel::Begin { id, version, hash, prefix, suffix })),
{
    lemma_tokens();
    lemma_decimal_reads(version as nat);
    reveal_strlit(" id=");
    reveal_strlit(" version=");
    reveal_strlit(" hash=");
    reveal_strlit("id");
    reveal_strlit("version");
    reveal_strlit("hash");
    let digits = decimal(version as nat);
    let id_word = "id"@ + seq!['='] + id;
    let version_word = "version"@ + seq!['='] + digits;
    let hash_word = "hash"@ + seq!['='] + hash;
    assert(" id="@ + id =~= seq![' '] + id_word);
    assert(" version="@ + digits =~= seq![' '] + version_word);
    assert(" hash="@ + hash =~= seq![' '] + hash_word);
    assert forall|i: int| 0 <= i < id_word.len() implies !is_space(#[trigger] id_word[i]) by {
        if i >= 3 {
            assert(id_word[i] == id[i - 3]);
            assert(is_id_char(id[i - 3]));
        }
    }
    assert forall|i: int| 0 <= i < version_word.len() implies !is_space(
        #[trigger] version_word[i],
    ) by {
        if i >= 8 {
            assert(version_word[i] == digits[i - 8]);
            assert('0' <= digits[i - 8] && digits[i - 8] <= '9');
        } else {
            assert(i == 0 || i == 1 || i == 2 || i == 3 || i == 4 || i == 5 || i == 6 || i == 7);
        }
    }
    assert forall|i: int| 0 <= i < hash_word.len() implies !is_space(#[trigger] hash_word[i]) by {
        if i >= 5 {
            assert(hash_word[i] == hash[i - 5]);
            assert(is_lower_hex(hash[i - 5]));
        } else {
            assert(i == 0 || i == 1 || i == 2 || i == 3 || i == 4);
        }
    }
    let none = Seq::<char>::empty();
    let no_words = Seq::<Seq<char>>::empty();
    assert(none + BEGIN_TOKEN@ =~= BEGIN_TOKEN@);
    lemma_words_extend(none, BEGIN_TOKEN@);
    assert(words_so_far(none) == (no_words, none));
    assert(words_so_far(BEGIN_TOKEN@) == (no_words, BEGIN_TOKEN@));
    let text1 = BEGIN_TOKEN@ + (seq![' '] + id_word);
    lemma_words_next(BEGIN_TOKEN@, id_word);
    let text2 = text1 + (seq![' '] + version_word);
    lemma_words_next(text1, version_word);
    let text3 = text2 + (seq![' '] + hash_word);
    lemma_words_next(text2, hash_word);
    assert(text3 == marker_fields(id, version, hash));
    let list = words(text3);
    assert(list =~= seq![BEGIN_TOKEN@, id_word, version_word, hash_word]);
    assert forall|i: int| 0 <= i < "id"@.len() implies #[trigger] "id"@[i] != '=' by {
        assert(i == 0 || i == 1);
    }
    assert forall|i: int| 0 <= i < "version"@.len() implies #[trigger] "version"@[i] != '=' by {
        assert(i == 0 || i == 1 || i == 2 || i == 3 || i == 4 || i == 5 || i == 6);
    }
    assert forall|i: int| 0 <= i < "hash"@.len() implies #[trigger] "hash"@[i] != '=' by {
        assert(i == 0 || i == 1 || i == 2 || i == 3);
    }
    lemma_field("id"@, id);
    lemma_field("version"@, digits);
    lemma_field("hash"@, hash);
    assert("id"@ != "version"@ && "id"@ != "hash"@ && "version"@ != "hash"@) by {
        assert("id"@.len() == 2 && "version"@.len() == 7 && "hash"@.len() == 4);
    }
    let fields0 = FieldsModel { id: None, version: None, hash: None };
    let fields1 = FieldsModel { id: Some(id), version: None, hash: None };
    let fields2 = FieldsModel { id: Some(id), version: Some(digits), hash: None };
    let fields3 = FieldsModel { id: Some(id), version: Some(digits), hash: Some(hash) };
    assert(field_added(fields0, id_word) == Ok::<FieldsModel, Seq<char>>(fields1));
    assert(field_added(fields1, version_word) == Ok::<FieldsModel, Seq<char>>(fields2));
    assert(field_added(fields2, hash_word) == Ok::<FieldsModel, Seq<char>>(fields3));
    assert(fields_of(list, 1) == Ok::<FieldsModel, Seq<char>>(fields0));
    assert(fields_of(list, 2) == Ok::<FieldsModel, Seq<char>>(fields1));
    assert(fields_of(list, 3) == Ok::<FieldsModel, Seq<char>>(fields2));
    assert(fields_of(list, 4) == Ok::<FieldsModel, Seq<char>>(fields3));
}

/// What stands behind the fields of a marker is blanks, or the end of a comment among blanks;
/// put behind other fields it is told apart from them again.
proof fn lemma_suffix_again(value: Seq<char>, payload: Seq<char>)
    requires
        payload.len() > 0,
        !is_blank(payload.last()),
        payload.last() != '>',
    ensures
        payload_end(payload + value.skip(payload_end(value))) == payload.len(),
        0 <= payload_end(value) <= value.len(),
        forall|i: int|
            payload_end(value) <= i < value.len() ==> is_blank(#[trigger] value[i]) || value[i]
                == '-' || value[i] == '>',
{
    reveal_strlit("-->");
    let size = value.len() as int;
    lemma_before_blanks(value, size);
    let outer = before_blanks(value, size);
    let end = payload_end(value);
    if outer >= 3 && value.subrange(outer - 3, outer) == "-->"@ {
        lemma_before_blanks(value, outer - 3);
        let tail = value.skip(end);
        let all = payload + tail;
        let base = payload.len() - end;
        assert(value.subrange(outer - 3, outer)[0] == value[outer - 3]);
        assert(value.subrange(outer - 3, outer)[1] == value[outer - 2]);
        assert(value.subrange(outer - 3, outer)[2] == value[outer - 1]);
        assert(value[outer - 1] == '>');
        assert forall|i: int| end <= i < size implies #[trigger] value[i] == all[base + i] by {}
        assert forall|i: int| base + outer <= i < all.len() implies is_blank(
            #[trigger] all[i],
        ) by {
            assert(all[i] == value[i - base]);
        }
        assert(all[base + outer - 1] == value[outer - 1]);
        lemma_before_blanks_is(all, all.len() as int, base + outer);
        assert(all.subrange(base + outer - 3, base + outer) =~= value.subrange(outer - 3, outer));
        assert forall|i: int| payload.len() <= i < base + outer - 3 implies is_blank(
            #[trigger] all[i],
        ) by {
            assert(all[i] == value[i - base]);
        }
        assert(all[payload.len() - 1] == payload.last());
        lemma_before_blanks_is(all, base + outer - 3, payload.len() as int);
        assert forall|i: int| end <= i < value.len() implies is_blank(#[trigger] value[i])
            || value[i] == '-' || value[i] == '>' by {
            if outer - 3 <= i < outer {
                assert(value[i] == value.subrange(outer - 3, outer)[i - (outer - 3)]);
            }
        }
    } else {
        let tail = value.skip(end);
        let all = payload + tail;
        let base = payload.len() - end;
        assert forall|i: int| payload.len() <= i < all.len() implies is_blank(
            #[trigger] all[i],
        ) by {
            assert(all[i] == value[i - base]);
        }
        assert(all[payload.len() - 1] == payload.last());
        lemma_before_blanks_is(all, all.len() as int, payload.len() as int);
        let place = payload.len() as int;
        if place >= 3 && all.subrange(place - 3, place) == "-->"@ {
            assert(all.subrange(place - 3, place)[2] == all[place - 1]);
        }
    }
}

/// The opening marker with another hash is read as such.
proof fn lemma_marker_again(line: Seq<char>, region: RegionModel, hash: Seq<char>)
    requires
        line_marker(line) == Ok::<Option<MarkerModel>, Seq<char>>(
            Some(
                MarkerModel::Begin {
                    id: region.id,
                    version: region.version,
                    hash: region.hash,
                    prefix: region.prefix,
                    suffix: region.suffix,
                },
            ),
        ),
        is_region_hash(hash),
    ensures
        line_marker(marker_text(region, hash)) == Ok::<Option<MarkerModel>, Seq<char>>(
            Some(
                MarkerModel::Begin {
                    id: region.id,
                    version: region.version,
                    hash,
                    prefix: region.prefix,
                    suffix: region.suffix,
                },
            ),
        ),
        region.prefix.len() <= line.len(),
        region.prefix == line.take(region.prefix.len() as int),
        is_region_id(region.id),
        forall|i: int|
            0 <= i < region.suffix.len() ==> is_blank(#[trigger] region.suffix[i])
                || region.suffix[i] == '-' || region.suffix[i] == '>',
{
    lemma_tokens();
    let start = blanks_from(line, 0);
    lemma_blanks_from(line, 0);
    lemma_first_at(BEGIN_TOKEN@, line, start);
    lemma_first_at(END_TOKEN@, line, start);
    let at = token_place(line, start)->Some_0;
    assert(token_place(line, start) is Some);
    let value = line.skip(at);
    let end = payload_end(value);
    let fields = marker_fields(region.id, region.version, hash);
    assert(is_lower_hex(hash[63]));
    assert(fields.last() == hash[63]);
    lemma_suffix_again(value, fields);
    let payload = value.take(end);
    assert(payload_marker(payload, line.take(at), value.skip(end)) == line_marker(line));
    assert(region.prefix == line.take(at));
    assert(region.suffix == value.skip(end));
    assert(words(payload)[0] == BEGIN_TOKEN@);
    assert(occurs_at(BEGIN_TOKEN@, line, at)) by {
        if first_at(BEGIN_TOKEN@, line, start) is None {
            assert(occurs_at(END_TOKEN@, line, at));
            assert(line.subrange(at, at + 18)[0] == line[at]);
            assert(line.subrange(at, at + 18)[15] == line[at + 15]);
            assert(END_TOKEN@.take(15)[0] == BEGIN_TOKEN@.take(15)[0]);
            assert(line[at] == 'o');
            assert(payload.len() > 0) by {
                if payload.len() == 0 {
                    assert(words_so_far(payload) == (
                        Seq::<Seq<char>>::empty(),
                        Seq::<char>::empty(),
                    ));
                    assert(words(payload).len() == 0);
                }
            }
            assert(payload[0] == 'o');
            lemma_first_word(payload);
            assert(BEGIN_TOKEN@.is_prefix_of(payload));
            assert(payload.take(20)[15] == BEGIN_TOKEN@[15]);
            assert(payload[15] == line[at + 15]);
        }
    }
    let text = marker_text(region, hash);
    assert(text =~= region.prefix + fields + region.suffix);
    assert(text.len() >= at + 20);
    assert forall|i: int| 0 <= i < at + 20 implies line[i] == text[i] by {
        if i < at {
            assert(line.take(at)[i] == line[i]);
        } else {
            assert(line.subrange(at, at + 20)[i - at] == line[i]);
            assert(text[i] == fields[i - at]);
            assert(fields[i - at] == BEGIN_TOKEN@[i - at]);
        }
    }
    assert(!is_blank(line[at])) by {
        assert(line.subrange(at, at + 20)[0] == line[at]);
    }
    assert(start <= at);
    if start < line.len() {
        if start < at {
            assert(line[start] == text[start]);
        } else {
            assert(line[at] == text[at]);
        }
        assert forall|i: int| 0 <= i < start implies is_blank(#[trigger] text[i]) by {
            assert(is_blank(line[i]));
        }
        lemma_blanks_from_is(text, 0, start);
    }
    assert(blanks_from(text, 0) == start);
    reveal_strlit("///");
    reveal_strlit("//!");
    assert(text.subrange(start, start + 3) =~= line.subrange(start, start + 3));
    assert(!stands_at("///"@, text, start) && !stands_at("//!"@, text, start));
    assert(text.subrange(at, at + 20) =~= BEGIN_TOKEN@) by {
        assert(text.subrange(at, at + 20) =~= line.subrange(at, at + 20));
    }
    assert(occurs_at(BEGIN_TOKEN@, text, at));
    assert(first_at(BEGIN_TOKEN@, line, start) == Some(at)) by {
        if first_at(BEGIN_TOKEN@, line, start) is None {
            assert(!occurs_at(BEGIN_TOKEN@, line, at));
        }
    }
    assert forall|i: int| start <= i < at implies !#[trigger] occurs_at(BEGIN_TOKEN@, text, i) by {
        if occurs_at(BEGIN_TOKEN@, text, i) {
            assert(text.subrange(i, i + 20) =~= line.subrange(i, i + 20));
            assert(occurs_at(BEGIN_TOKEN@, line, i));
        }
    }
    lemma_first_at_is(BEGIN_TOKEN@, text, start, at);
    assert(text.take(at) =~= region.prefix);
    assert(text.skip(at) =~= fields + region.suffix);
    assert((fields + region.suffix).take(fields.len() as int) =~= fields);
    assert((fields + region.suffix).skip(fields.len() as int) =~= region.suffix);
    lemma_fields_marker(region.id, region.version, hash, region.prefix, region.suffix);
    assert forall|i: int| 0 <= i < region.suffix.len() implies is_blank(
        #[trigger] region.suffix[i],
    ) || region.suffix[i] == '-' || region.suffix[i] == '>' by {
        assert(region.suffix[i] == value[end + i]);
    }
}

// Contents.
/// A parser with an open region whose contents go on with `more`.
spec fn continued(parser: ParserModel, more: Seq<char>) -> ParserModel {
    line_kept(parser, more)
}

proof fn lemma_occurs_inside(part: Seq<char>, text: Seq<char>, from: int, to: int)
    requires
        0 <= from <= to <= text.len(),
        !occurs(part, text),
    ensures
        !occurs(part, text.subrange(from, to)),
{
    let inner = text.subrange(from, to);
    if occurs(part, inner) {
        let at = choose|at: int| #[trigger] occurs_at(part, inner, at);
        assert(inner.subrange(at, at + part.len()) =~= text.subrange(
            from + at,
            from + at + part.len(),
        ));
        assert(occurs_at(part, text, from + at));
    }
}

/// Text without markers is kept as it is.
proof fn lemma_plain_text_kept(parser: ParserModel, text: Seq<char>, at: int)
    requires
        parser.open is Some,
        !occurs("omnius:managed-"@, text),
    ensures
        text_read(parser, text, at) == Ok::<ParserModel, Seq<char>>(continued(parser, text)),
    decreases text.len(),
{
    if text.len() == 0 {
        let begin = parser.open->Some_0;
        assert(begin.content + text =~= begin.content);
        assert(continued(parser, text) == parser);
    } else {
        lemma_line_length(text, 0);
        let length = line_length(text, 0);
        let line = text.take(length);
        assert(line =~= text.subrange(0, length));
        lemma_occurs_inside("omnius:managed-"@, text, 0, length);
        lemma_before_breaks(line, line.len() as int);
        let end = before_breaks(line, line.len() as int);
        let inner = line.take(end);
        assert(inner =~= line.subrange(0, end));
        lemma_occurs_inside("omnius:managed-"@, line, 0, end);
        lemma_blanks_from(inner, 0);
        lemma_no_token(inner, blanks_from(inner, 0));
        assert(line_marker(inner) == Ok::<Option<MarkerModel>, Seq<char>>(None));
        let next = continued(parser, line);
        let rest = text.skip(length);
        assert(rest =~= text.subrange(length, text.len() as int));
        lemma_occurs_inside("omnius:managed-"@, text, length, text.len() as int);
        lemma_plain_text_kept(next, rest, at + length);
        let begin = parser.open->Some_0;
        assert(begin.content + line + rest =~= begin.content + text) by {
            assert(line + rest =~= text);
        }
    }
}

// The course of reading.
/// Regions that were read stay.
proof fn lemma_regions_stay(parser: ParserModel, text: Seq<char>, at: int)
    ensures
        text_read(parser, text, at) matches Ok(last) ==> parser.regions.is_prefix_of(last.regions),
    decreases text.len(),
{
    if text.len() > 0 {
        lemma_line_length(text, 0);
        let length = line_length(text, 0);
        match line_read(parser, text.take(length), at) {
            Err(_) => {},
            Ok(next) => {
                assert(parser.regions.is_prefix_of(next.regions));
                lemma_regions_stay(next, text.skip(length), at + length);
            },
        }
    }
}

/// Whether the line at `at` of `text` closes the region `id`.
spec fn closes(text: Seq<char>, at: int, id: Seq<char>) -> bool {
    let rest = text.skip(at);
    let line = rest.take(line_length(rest, 0));
    &&& 0 <= at < text.len()
    &&& line_marker(line.take(before_breaks(line, line.len() as int))) == Ok::<
        Option<MarkerModel>,
        Seq<char>,
    >(Some(MarkerModel::End { id }))
}

/// An open region goes on up to the line that closes it.
proof fn lemma_open_region(parser: ParserModel, text: Seq<char>, at: int)
    requires
        parser.open is Some,
        text_read(parser, text, at) is Ok,
        text_read(parser, text, at)->Ok_0.regions.len() > parser.regions.len(),
    ensures
        ({
            let last = text_read(parser, text, at)->Ok_0;
            let region = last.regions[parser.regions.len() as int];
            let end = region.content_end - at;
            let begin = parser.open->Some_0;
            &&& 0 <= end < text.len()
            &&& end == 0 || text[end - 1] == '\n'
            &&& closes(text, end, begin.id)
            &&& begin.version == MANAGED_MARKER_VERSION
            &&& text_read(parser, text.take(end), at) == Ok::<ParserModel, Seq<char>>(
                continued(parser, text.take(end)),
            )
            &&& text_read(continued(parser, text.take(end)), text.skip(end), at + end) == Ok::<
                ParserModel,
                Seq<char>,
            >(last)
            &&& region == region_closed(
                continued(parser, text.take(end)).open->Some_0,
                at + end,
            )
        }),
    decreases text.len(),
{
    let last = text_read(parser, text, at)->Ok_0;
    assert(text.len() > 0);
    lemma_line_length(text, 0);
    let length = line_length(text, 0);
    let line = text.take(length);
    let next = line_read(parser, line, at)->Ok_0;
    lemma_regions_stay(next, text.skip(length), at + length);
    let begin = parser.open->Some_0;
    let stop = before_breaks(line, line.len() as int);
    match line_marker(line.take(stop)) {
        Err(_) => {},
        Ok(None) => {
            let rest = text.skip(length);
            lemma_open_region(next, rest, at + length);
            let region = last.regions[parser.regions.len() as int];
            let inner = region.content_end - (at + length);
            let end = inner + length;
            assert(text[end - 1] == (if inner == 0 {
                line[length - 1]
            } else {
                rest[inner - 1]
            }));
            if inner == 0 {
                assert(rest.len() > 0);
                assert(line[length - 1] == text[length - 1]);
            }
            assert(text.skip(end) =~= rest.skip(inner));
            assert(text.take(end) =~= line + rest.take(inner));
            assert(text.take(end).take(length) =~= line);
            assert(text.take(end).skip(length) =~= rest.take(inner));
            assert(line.last() == '\n') by {
                assert(line.last() == text[length - 1]);
                assert(rest.len() > 0);
            }
            lemma_line_length_prefix(line, rest.take(inner), 0);
            lemma_line_length_prefix(line, rest, 0);
            assert(line + rest =~= text);
            assert(line_length(text.take(end), 0) == length);
            let begin_next = next.open->Some_0;
            assert(begin_next.content + rest.take(inner) =~= begin.content + text.take(end));
            assert(continued(next, rest.take(inner)) == continued(parser, text.take(end)));
        },
        Ok(Some(MarkerModel::Begin { .. })) => {},
        Ok(Some(MarkerModel::End { id })) => {
            assert(text.take(0).len() == 0);
            assert(begin.content + text.take(0) =~= begin.content);
            assert(continued(parser, text.take(0)) == parser);
            assert(text.skip(0) =~= text);
            assert(next.regions[parser.regions.len() as int] == region_closed(begin, at));
            assert(last.regions[parser.regions.len() as int] == region_closed(begin, at));
        },
    }
}

/// What is known of the place at which a region was read: `before` was read to its beginning,
/// then its opening line, then its contents, then the rest.
spec fn is_trace(
    parser: ParserModel,
    text: Seq<char>,
    at: int,
    last: ParserModel,
    index: int,
    before: ParserModel,
) -> bool {
    let region = last.regions[index];
    let a = region.begin_start - at;
    let c = region.content_start - at;
    let e = region.content_end - at;
    let line = text.subrange(a, c);
    let opened = ParserModel {
        regions: before.regions,
        open: Some(
            OpenModel {
                id: region.id,
                version: region.version,
                hash: region.hash,
                content: region.content,
                begin_start: region.begin_start,
                begin_end: region.begin_end,
                content_start: region.content_start,
                prefix: region.prefix,
                suffix: region.suffix,
            },
        ),
        ids: before.ids.push(region.id),
    };
    &&& 0 <= a < c <= e < text.len()
    &&& a == 0 || text[a - 1] == '\n'
    &&& text[c - 1] == '\n'
    &&& forall|i: int| a <= i < c - 1 ==> text[i] != '\n'
    &&& text_read(parser, text.take(a), at) == Ok::<ParserModel, Seq<char>>(before)
    &&& before.open is None
    &&& before.regions.len() == index
    &&& !before.ids.contains(region.id)
    &&& region.begin_end - region.begin_start == before_breaks(line, line.len() as int)
    &&& line_marker(line.take(before_breaks(line, line.len() as int))) == Ok::<
        Option<MarkerModel>,
        Seq<char>,
    >(
        Some(
            MarkerModel::Begin {
                id: region.id,
                version: region.version,
                hash: region.hash,
                prefix: region.prefix,
                suffix: region.suffix,
            },
        ),
    )
    &&& region.version == MANAGED_MARKER_VERSION
    &&& closes(text, e, region.id)
    &&& text_read(opened, text.skip(e), at + e) == Ok::<ParserModel, Seq<char>>(last)
}

proof fn lemma_trace_shift(
    parser: ParserModel,
    head: Seq<char>,
    rest: Seq<char>,
    at: int,
    middle: ParserModel,
    last: ParserModel,
    index: int,
    before: ParserModel,
)
    requires
        head.len() > 0,
        head.last() == '\n',
        text_read(parser, head, at) == Ok::<ParserModel, Seq<char>>(middle),
        is_trace(middle, rest, at + head.len(), last, index, before),
    ensures
        is_trace(parser, head + rest, at, last, index, before),
{
    let text = head + rest;
    let region = last.regions[index];
    let size = head.len() as int;
    let a = region.begin_start - at;
    let c = region.content_start - at;
    let e = region.content_end - at;
    assert(text.take(a) =~= head + rest.take(a - size));
    lemma_read_concat(parser, head, rest.take(a - size), at);
    assert(text.subrange(a, c) =~= rest.subrange(a - size, c - size));
    assert(text.skip(e) =~= rest.skip(e - size));
    assert(a == size ==> text[a - 1] == head.last());
    assert(a > size ==> text[a - 1] == rest[a - size - 1]);
    assert(text[c - 1] == rest[c - size - 1]);
    assert forall|i: int| a <= i < c - 1 implies text[i] != '\n' by {
        assert(text[i] == rest[i - size]);
    }
}

/// Where the first line opens a region: the region has its trace, and `head` characters were
/// read when it was closed.
proof fn lemma_first_region(parser: ParserModel, text: Seq<char>, at: int) -> (result: (
    int,
    ParserModel,
))
    requires
        parser.open is None,
        text.len() > 0,
        text_read(parser, text, at) is Ok,
        line_read(parser, text.take(line_length(text, 0)), at)->Ok_0.open is Some,
        text_read(parser, text, at)->Ok_0.regions.len() > parser.regions.len(),
    ensures
        ({
            let (head, closed_parser) = result;
            let last = text_read(parser, text, at)->Ok_0;
            &&& 0 < head <= text.len()
            &&& head < text.len() ==> text[head - 1] == '\n'
            &&& closed_parser.open is None
            &&& closed_parser.regions.len() == parser.regions.len() + 1
            &&& head < text.len() ==> text_read(parser, text.take(head), at) == Ok::<
                ParserModel,
                Seq<char>,
            >(closed_parser)
            &&& text_read(closed_parser, text.skip(head), at + head) == Ok::<
                ParserModel,
                Seq<char>,
            >(last)
            &&& is_trace(parser, text, at, last, parser.regions.len() as int, parser)
        }),
{
    let last = text_read(parser, text, at)->Ok_0;
    lemma_line_length(text, 0);
    let length = line_length(text, 0);
    let line = text.take(length);
    let rest = text.skip(length);
    let next = line_read(parser, line, at)->Ok_0;
    assert(line + rest =~= text);
    if rest.len() == 0 {
        assert(text_read(next, rest, at + length) == Ok::<ParserModel, Seq<char>>(next));
        assert(last == next);
        assert(false);
    }
    assert(line.last() == text[length - 1]);
    lemma_line_length_prefix(line, rest, 0);
    lemma_read_line(parser, line, at);
    lemma_open_region(next, rest, at + length);
    let first = last.regions[next.regions.len() as int];
    let inner = first.content_end - (at + length);
    let closing = rest.skip(inner);
    lemma_line_length(closing, 0);
    let close_length = line_length(closing, 0);
    let close_line = closing.take(close_length);
    let body = rest.take(inner);
    let filled = continued(next, body);
    assert(filled.open->Some_0.content =~= body);
    assert(text.take(0).len() == 0);
    assert(text.subrange(0, length) =~= line);
    assert(text.skip(length + inner) =~= closing);
    assert(is_trace(parser, text, at, last, parser.regions.len() as int, parser));
    let closed_parser = line_read(filled, close_line, at + length + inner)->Ok_0;
    let head = length + inner + close_length;
    assert(text.skip(head) =~= closing.skip(close_length));
    if head < text.len() {
        assert(text[head - 1] == closing[close_length - 1]);
        assert(close_line.last() == '\n') by {
            assert(close_line.last() == closing[close_length - 1]);
        }
        lemma_first_region_head(parser, line, body, close_line, at, next, filled, closed_parser);
        assert(text.take(head) =~= line + body + close_line);
    }
    (head, closed_parser)
}

proof fn lemma_first_region_head(
    parser: ParserModel,
    line: Seq<char>,
    body: Seq<char>,
    close_line: Seq<char>,
    at: int,
    next: ParserModel,
    filled: ParserModel,
    closed_parser: ParserModel,
)
    requires
        line.len() > 0 && line.last() == '\n',
        body.len() == 0 || body.last() == '\n',
        close_line.len() > 0,
        line_length(close_line, 0) == close_line.len() || close_line.last() == '\n',
        forall|i: int| 0 <= i < close_line.len() - 1 ==> close_line[i] != '\n',
        close_line.last() == '\n',
        text_read(parser, line, at) == Ok::<ParserModel, Seq<char>>(next),
        text_read(next, body, at + line.len()) == Ok::<ParserModel, Seq<char>>(filled),
        line_read(filled, close_line, at + line.len() + body.len()) == Ok::<
            ParserModel,
            Seq<char>,
        >(closed_parser),
    ensures
        text_read(parser, line + body + close_line, at) == Ok::<ParserModel, Seq<char>>(
            closed_parser,
        ),
{
    lemma_single_line(close_line, 0);
    lemma_read_line(filled, close_line, at + line.len() + body.len());
    lemma_read_concat(parser, line, body, at);
    assert((line + body).last() == '\n') by {
        if body.len() > 0 {
            assert((line + body).last() == body.last());
        } else {
            assert(line + body =~= line);
        }
    }
    lemma_read_concat(parser, line + body, close_line, at);
}

/// Every region that was read has its trace.
proof fn lemma_trace(parser: ParserModel, text: Seq<char>, at: int, index: int) -> (before:
    ParserModel)
    requires
        parser.open is None,
        text_read(parser, text, at) is Ok,
        parser.regions.len() <= index < text_read(parser, text, at)->Ok_0.regions.len(),
    ensures
        is_trace(parser, text, at, text_read(parser, text, at)->Ok_0, index, before),
    decreases text.len(),
{
    let last = text_read(parser, text, at)->Ok_0;
    assert(text.len() > 0);
    lemma_line_length(text, 0);
    let length = line_length(text, 0);
    let line = text.take(length);
    let rest = text.skip(length);
    let next = line_read(parser, line, at)->Ok_0;
    assert(line + rest =~= text);
    if next.open is Some {
        let (head, closed_parser) = lemma_first_region(parser, text, at);
        if index == parser.regions.len() {
            parser
        } else {
            let after = text.skip(head);
            if after.len() == 0 {
                assert(text_read(closed_parser, after, at + head) == Ok::<ParserModel, Seq<char>>(
                    closed_parser,
                ));
                assert(false);
            }
            let before = lemma_trace(closed_parser, after, at + head, index);
            assert(text.take(head) + after =~= text);
            assert(text.take(head).last() == text[head - 1]);
            lemma_trace_shift(
                parser,
                text.take(head),
                after,
                at,
                closed_parser,
                last,
                index,
                before,
            );
            before
        }
    } else {
        assert(next == parser);
        if rest.len() == 0 {
            assert(text_read(next, rest, at + length) == Ok::<ParserModel, Seq<char>>(next));
            assert(false);
        }
        assert(line.last() == text[length - 1]);
        lemma_line_length_prefix(line, rest, 0);
        lemma_read_line(parser, line, at);
        let before = lemma_trace(next, rest, at + length, index);
        lemma_trace_shift(parser, line, rest, at, next, last, index, before);
        before
    }
}

// Regions that are not replaced.
/// Whether two regions say the same, wherever they stand.
pub open spec fn same_region(left: RegionModel, right: RegionModel) -> bool {
    &&& left.id == right.id
    &&& left.version == right.version
    &&& left.hash == right.hash
    &&& left.content == right.content
}

/// Whether `after` are the regions `before`, but that the one at `index` has the contents
/// `content` and their hash.
pub open spec fn reads_back(
    before: Seq<RegionModel>,
    after: Seq<RegionModel>,
    index: int,
    content: Seq<char>,
) -> bool {
    &&& after.len() == before.len()
    &&& after[index].id == before[index].id
    &&& after[index].version == before[index].version
    &&& after[index].content == content
    &&& after[index].hash == hex(sha256(encode_utf8(content)))
    &&& forall|i: int|
        0 <= i < before.len() && i != index ==> same_region(#[trigger] before[i], after[i])
}

spec fn same_open(left: Option<OpenModel>, right: Option<OpenModel>) -> bool {
    match (left, right) {
        (None, None) => true,
        (Some(a), Some(b)) => a.id == b.id && a.version == b.version && a.hash == b.hash
            && a.content == b.content,
        _ => false,
    }
}

spec fn same_beside(left: ParserModel, right: ParserModel, index: int) -> bool {
    &&& left.ids == right.ids
    &&& same_open(left.open, right.open)
    &&& left.regions.len() == right.regions.len()
    &&& forall|i: int|
        0 <= i < left.regions.len() && i != index ==> same_region(
            #[trigger] left.regions[i],
            right.regions[i],
        )
}

proof fn lemma_read_alike(
    left: ParserModel,
    right: ParserModel,
    text: Seq<char>,
    left_at: int,
    right_at: int,
    index: int,
)
    requires
        same_beside(left, right, index),
        index < left.regions.len(),
        text_read(left, text, left_at) is Ok,
    ensures
        text_read(right, text, right_at) is Ok,
        same_beside(
            text_read(left, text, left_at)->Ok_0,
            text_read(right, text, right_at)->Ok_0,
            index,
        ),
        left.regions.is_prefix_of(text_read(left, text, left_at)->Ok_0.regions),
        right.regions.is_prefix_of(text_read(right, text, right_at)->Ok_0.regions),
    decreases text.len(),
{
    lemma_regions_stay(left, text, left_at);
    lemma_regions_stay(right, text, right_at);
    if text.len() > 0 {
        lemma_line_length(text, 0);
        let length = line_length(text, 0);
        let line = text.take(length);
        let left_next = line_read(left, line, left_at)->Ok_0;
        let right_next = line_read(right, line, right_at)->Ok_0;
        assert(line_read(right, line, right_at) is Ok);
        assert(same_beside(left_next, right_next, index)) by {
            assert forall|i: int| 0 <= i < left_next.regions.len() && i != index implies same_region(
                #[trigger] left_next.regions[i],
                right_next.regions[i],
            ) by {
                if i < left.regions.len() {
                    assert(left_next.regions[i] == left.regions[i]);
                    assert(right_next.regions[i] == right.regions[i]);
                }
            }
        }
        lemma_read_alike(
            left_next,
            right_next,
            text.skip(length),
            left_at + length,
            right_at + length,
            index,
        );
    }
}

// The law.
/// Replacing the contents of the region at `index` gives a file whose regions are the same, but
/// that the region at `index` has the new contents and their hash, which has the form of one.
pub proof fn lemma_replaced_reads(source: Seq<char>, index: int, content: Seq<char>)
    requires
        regions_of(source) is Ok,
        0 <= index < regions_of(source)->Ok_0.len(),
        is_replacement(content),
        is_region_hash(hex(sha256(encode_utf8(content)))),
    ensures
        ({
            let before = regions_of(source)->Ok_0;
            let text = replaced(source, before[index], content);
            regions_of(text) is Ok && reads_back(before, regions_of(text)->Ok_0, index, content)
        }),
{
    let last = text_read(no_regions(), source, 0)->Ok_0;
    let region = last.regions[index];
    let before = lemma_trace(no_regions(), source, 0, index);
    lemma_regions_placed(source);
    let a = region.begin_start;
    let b = region.begin_end;
    let c = region.content_start;
    let e = region.content_end;
    let hash = hex(sha256(encode_utf8(content)));
    let line = source.subrange(a, c);
    let stop = before_breaks(line, line.len() as int);
    lemma_before_breaks(line, line.len() as int);
    lemma_marker_again(line.take(stop), region, hash);
    let marker = marker_text(region, hash);
    let breaks = source.subrange(b, c);
    let new_line = marker + breaks;
    let head = source.take(a);
    let tail = source.skip(e);
    let text = replaced(source, region, content);
    assert(text =~= head + (new_line + (content + tail)));
    // The opening line.
    let new_size = new_line.len() as int;
    lemma_marker_has_no_break(region, hash, line.take(stop));
    assert(breaks.len() > 0 && breaks.last() == '\n') by {
        if b == c {
            assert(stop == line.len());
            assert(line[stop - 1] == source[c - 1]);
        }
        assert(breaks.last() == source[c - 1]);
    }
    assert(marker.len() > 0);
    assert forall|i: int| marker.len() <= i < new_size implies new_line[i] == '\r' || new_line[i]
        == '\n' by {
        assert(new_line[i] == breaks[i - marker.len()]);
        assert(breaks[i - marker.len()] == line[stop + (i - marker.len())]);
    }
    lemma_before_breaks_is(new_line, new_size, marker.len() as int);
    assert(new_line.take(marker.len() as int) =~= marker);
    assert forall|i: int| 0 <= i < new_size - 1 implies new_line[i] != '\n' by {
        if i < marker.len() {
            assert(new_line[i] == marker[i]);
        } else {
            assert(new_line[i] == breaks[i - marker.len()]);
            assert(breaks[i - marker.len()] == source[b + (i - marker.len())]);
        }
    }
    assert(new_line.last() == '\n') by {
        assert(new_line.last() == breaks.last());
    }
    lemma_single_line(new_line, 0);
    let opened = ParserModel {
        regions: before.regions,
        open: Some(
            OpenModel {
                id: region.id,
                version: region.version,
                hash,
                content: Seq::empty(),
                begin_start: a,
                begin_end: a + marker.len(),
                content_start: a + new_size,
                prefix: region.prefix,
                suffix: region.suffix,
            },
        ),
        ids: before.ids.push(region.id),
    };
    lemma_read_line(before, new_line, a);
    assert(line_read(before, new_line, a) == Ok::<ParserModel, Seq<char>>(opened));
    // The contents.
    lemma_plain_text_kept(opened, content, a + new_size);
    let filled = continued(opened, content);
    assert(Seq::<char>::empty() + content =~= content);
    // Everything together.
    assert(head.len() > 0 ==> head.last() == source[a - 1]);
    lemma_read_concat(no_regions(), head, new_line + (content + tail), 0);
    lemma_read_concat(before, new_line, content + tail, a);
    lemma_read_concat(opened, content, tail, a + new_size);
    let tail_at = a + new_size + content.len();
    assert(text_read(no_regions(), text, 0) == text_read(filled, tail, tail_at));
    // The closing line and the rest.
    let old_filled = ParserModel {
        regions: before.regions,
        open: Some(
            OpenModel {
                id: region.id,
                version: region.version,
                hash: region.hash,
                content: region.content,
                begin_start: region.begin_start,
                begin_end: region.begin_end,
                content_start: region.content_start,
                prefix: region.prefix,
                suffix: region.suffix,
            },
        ),
        ids: before.ids.push(region.id),
    };
    lemma_line_length(tail, 0);
    let close_length = line_length(tail, 0);
    let close_line = tail.take(close_length);
    let old_closed = line_read(old_filled, close_line, e)->Ok_0;
    let new_closed = line_read(filled, close_line, tail_at)->Ok_0;
    assert(line_read(filled, close_line, tail_at) is Ok);
    assert(same_beside(old_closed, new_closed, index)) by {
        assert forall|i: int| 0 <= i < old_closed.regions.len() && i != index implies same_region(
            #[trigger] old_closed.regions[i],
            new_closed.regions[i],
        ) by {
            assert(old_closed.regions[i] == before.regions[i]);
            assert(new_closed.regions[i] == before.regions[i]);
        }
    }
    lemma_read_alike(
        old_closed,
        new_closed,
        tail.skip(close_length),
        e + close_length,
        tail_at + close_length,
        index,
    );
    let new_last = text_read(no_regions(), text, 0)->Ok_0;
    assert(new_last.regions[index] == new_closed.regions[index]);
    assert forall|i: int| 0 <= i < last.regions.len() && i != index implies same_region(
        #[trigger] last.regions[i],
        new_last.regions[i],
    ) by {}
}

/// An opening marker holds no line break.
proof fn lemma_marker_has_no_break(region: RegionModel, hash: Seq<char>, line: Seq<char>)
    requires
        is_region_id(region.id),
        is_region_hash(hash),
        region.prefix.len() <= line.len(),
        region.prefix == line.take(region.prefix.len() as int),
        forall|i: int| 0 <= i < line.len() ==> line[i] != '\n',
        forall|i: int|
            0 <= i < region.suffix.len() ==> is_blank(#[trigger] region.suffix[i])
                || region.suffix[i] == '-' || region.suffix[i] == '>',
    ensures
        forall|i: int|
            0 <= i < marker_text(region, hash).len() ==> #[trigger] marker_text(region, hash)[i]
                != '\n',
        marker_text(region, hash).len() > 0,
        marker_text(region, hash).last() != '\r',
{
    lemma_tokens();
    lemma_decimal_reads(region.version as nat);
    reveal_strlit(" id=");
    reveal_strlit(" version=");
    reveal_strlit(" hash=");
    let text = marker_text(region, hash);
    let digits = decimal(region.version as nat);
    let p1 = region.prefix.len() as int;
    let p2 = p1 + 20;
    let p3 = p2 + 4;
    let p4 = p3 + region.id.len();
    let p5 = p4 + 9;
    let p6 = p5 + digits.len();
    let p7 = p6 + 6;
    let p8 = p7 + 64;
    assert(text.len() == p8 + region.suffix.len());
    assert forall|i: int| 0 <= i < text.len() implies #[trigger] text[i] != '\n' && (i >= p8 - 1
        ==> text[i] != '\r') by {
        if i < p1 {
            assert(text[i] == region.prefix[i]);
            assert(region.prefix[i] == line[i]);
        } else if i < p2 {
            assert(text[i] == BEGIN_TOKEN@[i - p1]);
        } else if i < p3 {
            assert(text[i] == " id="@[i - p2]);
        } else if i < p4 {
            assert(text[i] == region.id[i - p3]);
            assert(is_id_char(region.id[i - p3]));
        } else if i < p5 {
            assert(text[i] == " version="@[i - p4]);
            let k = i - p4;
            assert(k == 0 || k == 1 || k == 2 || k == 3 || k == 4 || k == 5 || k == 6 || k == 7
                || k == 8);
        } else if i < p6 {
            assert(text[i] == digits[i - p5]);
            assert('0' <= digits[i - p5] && digits[i - p5] <= '9');
        } else if i < p7 {
            assert(text[i] == " hash="@[i - p6]);
            let k = i - p6;
            assert(k == 0 || k == 1 || k == 2 || k == 3 || k == 4 || k == 5);
        } else if i < p8 {
            assert(text[i] == hash[i - p7]);
            assert(is_lower_hex(hash[i - p7]));
        } else {
            assert(text[i] == region.suffix[i - p8]);
            assert(is_blank(region.suffix[i - p8]) || region.suffix[i - p8] == '-'
                || region.suffix[i - p8] == '>');
        }
    }
}

/// Whether a region has a version that is supported, and the hash of its contents.
pub open spec fn is_authentic(region: RegionModel) -> bool {
    region.version == MANAGED_MARKER_VERSION && region.hash == hex(
        sha256(encode_utf8(region.content)),
    )
}

proof fn lemma_read_authentic(parser: ParserModel, text: Seq<char>, at: int)
    requires
        forall|i: int| 0 <= i < parser.regions.len() ==> is_authentic(#[trigger] parser.regions[i]),
    ensures
        text_read(parser, text, at) matches Ok(last) ==> forall|i: int|
            0 <= i < last.regions.len() ==> is_authentic(#[trigger] last.regions[i]),
    decreases text.len(),
{
    if text.len() > 0 {
        lemma_line_length(text, 0);
        let length = line_length(text, 0);
        if let Ok(next) = line_read(parser, text.take(length), at) {
            lemma_read_authentic(next, text.skip(length), at + length);
        }
    }
}

/// Every region that is read has a version that is supported, and the hash of its contents.
pub proof fn lemma_regions_authentic(source: Seq<char>)
    ensures
        regions_of(source) matches Ok(regions) ==> forall|i: int|
            0 <= i < regions.len() ==> is_authentic(#[trigger] regions[i]),
{
    lemma_read_authentic(no_regions(), source, 0);
}

/// The place of a region goes by the identifiers alone.
pub proof fn lemma_same_place(left: Seq<RegionModel>, right: Seq<RegionModel>, id: Seq<char>, from: int)
    requires
        left.len() == right.len(),
        forall|i: int| 0 <= i < left.len() ==> (#[trigger] left[i]).id == right[i].id,
        0 <= from <= left.len(),
    ensures
        region_place(left, id, from) == region_place(right, id, from),
        from <= region_place(left, id, from) <= left.len(),
    decreases left.len() - from,
{
    if from < left.len() && left[from].id != id {
        lemma_same_place(left, right, id, from + 1);
    }
}

/// A record with the hash of other contents.
pub open spec fn approved_record(record: RecordModel, content: Seq<char>) -> RecordModel {
    RecordModel { content_hash: hex(sha256(encode_utf8(content))), ..record }
}

/// Reconciling a region once more with the record that the first reconciliation leads to changes
/// nothing.
pub proof fn lemma_reconciled_again(source: Seq<char>, expected: RecordModel, content: Seq<char>)
    requires
        reconciled(source, expected, content) is Ok,
        is_region_hash(hex(sha256(encode_utf8(content)))),
    ensures
        ({
            let next = reconciled(source, expected, content)->Ok_0;
            reconciled(next, approved_record(expected, content), content) == Ok::<
                Seq<char>,
                Seq<char>,
            >(next)
        }),
{
    let before = regions_of(source)->Ok_0;
    let place = region_place(before, expected.id, 0);
    lemma_same_place(before, before, expected.id, 0);
    let next = reconciled(source, expected, content)->Ok_0;
    if next != source {
        lemma_replaced_reads(source, place, content);
        let after = regions_of(next)->Ok_0;
        assert forall|i: int| 0 <= i < before.len() implies (#[trigger] before[i]).id
            == after[i].id by {
            if i != place {
                assert(same_region(before[i], after[i]));
            }
        }
        lemma_same_place(before, after, expected.id, 0);
    } else if !(hex(sha256(encode_utf8(content))) == before[place].hash && content
        == before[place].content) {
        lemma_replaced_reads(source, place, content);
    }
}

} // verus!

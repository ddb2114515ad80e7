//! Managed regions of a file: their markers, their contents and their replacement.
//!
//! A region begins with a comment line `omnius:managed-begin id=<id> version=1 hash=<sha256>`
//! and ends with a comment line `omnius:managed-end id=<id>`. Comments begin with `#`, `//` or
//! `<!--`.

use vstd::prelude::*;
use vstd::string::*;

use crate::digest::{hex, is_hex_digit, is_lower_hex, sha256, sha256_hex};
use crate::ordered::{set_add, Sorted, TextSet};
use crate::region_laws::{lemma_replaced_reads, reads_back};
use crate::state::{ManagedRegionRecord, RecordModel, MANAGED_MARKER_VERSION};
use crate::text::{
    chars_of, contains_text, decimal, decimal_text, holds_at, join3, join4, join5, occurs,
    occurs_at, same_text, text_between, texts, trim_text, trimmed,
};
use vstd::utf8::encode_utf8;

verus! {

/// Token of an opening marker.
pub const BEGIN_TOKEN: &'static str = "omnius:managed-begin";

/// Token of a closing marker.
pub const END_TOKEN: &'static str = "omnius:managed-end";

/// Corrupt, ambiguous, or unexpectedly edited managed markers.
#[derive(Debug, PartialEq, Eq)]
pub struct RegionError {
    message: String,
}

impl RegionError {
    /// The diagnostic text.
    pub closed spec fn text(self) -> Seq<char> {
        self.message@
    }

    /// Creates an error with a diagnostic text.
    pub fn new(message: String) -> (error: Self)
        ensures
            error.text() == message@,
    {
        RegionError { message }
    }

    /// Returns the diagnostic text.
    pub fn message(&self) -> (text: &str)
        ensures
            text@ == self.text(),
    {
        self.message.as_str()
    }
}

/// One validated managed region of a file.
#[derive(Debug, PartialEq, Eq)]
pub struct ManagedRegion {
    /// Stable region identifier.
    pub id: String,
    /// Marker grammar version.
    pub marker_version: u32,
    /// Hash recorded in the opening marker.
    pub content_hash: String,
    /// Exact managed text between marker lines.
    pub content: String,
    pub(crate) begin_line_start: usize,
    pub(crate) begin_line_end: usize,
    pub(crate) content_start: usize,
    pub(crate) content_end: usize,
    pub(crate) prefix: String,
    pub(crate) suffix: String,
}

/// The value of a region. Places count characters from the beginning of the file.
pub struct RegionModel {
    /// Stable region identifier.
    pub id: Seq<char>,
    /// Marker grammar version.
    pub version: u32,
    /// Hash recorded in the opening marker.
    pub hash: Seq<char>,
    /// Text between marker lines.
    pub content: Seq<char>,
    /// Where the opening line begins.
    pub begin_start: int,
    /// Where the opening line ends, without its line break.
    pub begin_end: int,
    /// Where the contents begin.
    pub content_start: int,
    /// Where the contents end.
    pub content_end: int,
    /// What stands before the opening token.
    pub prefix: Seq<char>,
    /// What stands behind the opening marker's fields.
    pub suffix: Seq<char>,
}

impl ManagedRegion {
    /// The value of this region.
    pub open(crate) spec fn view(&self) -> RegionModel {
        RegionModel {
            id: self.id@,
            version: self.marker_version,
            hash: self.content_hash@,
            content: self.content@,
            begin_start: self.begin_line_start as int,
            begin_end: self.begin_line_end as int,
            content_start: self.content_start as int,
            content_end: self.content_end as int,
            prefix: self.prefix@,
            suffix: self.suffix@,
        }
    }
}

// Lines.
/// Whether a character is a blank.
pub open spec fn is_blank(character: char) -> bool {
    character == ' ' || character == '\t'
}

/// The number of blanks at the beginning of `line`, from place `at` on.
pub open spec fn blanks_from(line: Seq<char>, at: int) -> int
    decreases line.len() - at,
{
    if 0 <= at < line.len() && is_blank(line[at]) {
        blanks_from(line, at + 1)
    } else {
        at
    }
}

/// The end of `line` before the blanks that end at `end`.
pub open spec fn before_blanks(line: Seq<char>, end: int) -> int
    decreases end,
{
    if 0 < end <= line.len() && is_blank(line[end - 1]) {
        before_blanks(line, end - 1)
    } else {
        end
    }
}

/// The length of the first line of `text`, with its line feed, from place `at` on.
pub open spec fn line_length(text: Seq<char>, at: int) -> int
    decreases text.len() - at,
{
    if at < 0 || at >= text.len() {
        at
    } else if text[at] == '\n' {
        at + 1
    } else {
        line_length(text, at + 1)
    }
}

/// The end of a line that ends at `end`, without line breaks.
pub open spec fn before_breaks(text: Seq<char>, end: int) -> int
    decreases end,
{
    if 0 < end <= text.len() && (text[end - 1] == '\r' || text[end - 1] == '\n') {
        before_breaks(text, end - 1)
    } else {
        end
    }
}

/// The first place from `from` on at which `part` occurs in `text`.
pub open spec fn first_at(part: Seq<char>, text: Seq<char>, from: int) -> Option<int>
    decreases text.len() - from + 1,
{
    if from < 0 || from + part.len() > text.len() {
        None
    } else if occurs_at(part, text, from) {
        Some(from)
    } else {
        first_at(part, text, from + 1)
    }
}

/// Whether a character is ASCII white space.
pub open spec fn is_space(character: char) -> bool {
    character == ' ' || character == '\t' || character == '\n' || character == '\r' || character
        == '\u{c}'
}

/// The words of `text` that are closed by white space, and the word that is still open.
pub open spec fn words_so_far(text: Seq<char>) -> (Seq<Seq<char>>, Seq<char>)
    decreases text.len(),
{
    if text.len() == 0 {
        (Seq::empty(), Seq::empty())
    } else {
        let (closed_words, word) = words_so_far(text.drop_last());
        if is_space(text.last()) {
            if word.len() == 0 {
                (closed_words, word)
            } else {
                (closed_words.push(word), Seq::empty())
            }
        } else {
            (closed_words, word.push(text.last()))
        }
    }
}

/// The words of `text`, separated by ASCII white space.
pub open spec fn words(text: Seq<char>) -> Seq<Seq<char>> {
    let (closed_words, word) = words_so_far(text);
    if word.len() == 0 {
        closed_words
    } else {
        closed_words.push(word)
    }
}

/// The first place from `from` on at which `text` holds `character`; its length if there is
/// none.
pub open spec fn place_of(text: Seq<char>, character: char, from: int) -> int
    decreases text.len() - from,
{
    if from < 0 || from >= text.len() || text[from] == character {
        from
    } else {
        place_of(text, character, from + 1)
    }
}

/// The value of decimal digits, the first `count` of `text`; absent where one of them is no
/// digit.
pub open spec fn digits_value(text: Seq<char>, count: int) -> Option<nat>
    decreases count,
{
    if count <= 0 {
        Some(0)
    } else {
        match digits_value(text, count - 1) {
            None => None,
            Some(value) => if '0' <= text[count - 1] && text[count - 1] <= '9' {
                Some((10 * value + (text[count - 1] as nat - 48)) as nat)
            } else {
                None
            },
        }
    }
}

/// The number that `text` is read as: decimal digits behind an optional plus sign.
pub open spec fn number_of(text: Seq<char>) -> Option<u32> {
    let digits = if text.len() > 0 && text[0] == '+' {
        text.skip(1)
    } else {
        text
    };
    if digits.len() == 0 {
        None
    } else {
        match digits_value(digits, digits.len() as int) {
            Some(value) => if value <= u32::MAX {
                Some(value as u32)
            } else {
                None
            },
            None => None,
        }
    }
}

// Markers.
/// The value of a marker.
pub enum MarkerModel {
    /// An opening marker.
    Begin {
        /// Region identifier.
        id: Seq<char>,
        /// Marker grammar version.
        version: u32,
        /// Recorded hash.
        hash: Seq<char>,
        /// What stands before the token.
        prefix: Seq<char>,
        /// What stands behind the fields.
        suffix: Seq<char>,
    },
    /// A closing marker.
    End {
        /// Region identifier.
        id: Seq<char>,
    },
}

/// The fields of a marker that were read so far.
pub struct FieldsModel {
    /// `id` field.
    pub id: Option<Seq<char>>,
    /// `version` field.
    pub version: Option<Seq<char>>,
    /// `hash` field.
    pub hash: Option<Seq<char>>,
}

/// Whether a prefix is nothing but the beginning of a comment.
pub open spec fn is_comment_prefix(prefix: Seq<char>) -> bool {
    trimmed(prefix) == "#"@ || trimmed(prefix) == "//"@ || trimmed(prefix) == "<!--"@
}

/// Where the payload of a marker ends and the end of its comment begins.
pub open spec fn payload_end(value: Seq<char>) -> int {
    let end = before_blanks(value, value.len() as int);
    if end >= 3 && value.subrange(end - 3, end) == "-->"@ {
        before_blanks(value, end - 3)
    } else {
        end
    }
}

/// Whether a character may stand in a region identifier.
pub open spec fn is_id_char(character: char) -> bool {
    ('a' <= character && character <= 'z') || ('A' <= character && character <= 'Z') || ('0'
        <= character && character <= '9') || character == '-' || character == '_' || character
        == '.'
}

/// Whether a string is a region identifier.
pub open spec fn is_region_id(id: Seq<char>) -> bool {
    0 < id.len() <= 128 && forall|i: int| 0 <= i < id.len() ==> is_id_char(#[trigger] id[i])
}

/// Whether a string has the form of a SHA-256 hash.
pub open spec fn is_region_hash(hash: Seq<char>) -> bool {
    hash.len() == 64 && forall|i: int| 0 <= i < 64 ==> is_lower_hex(#[trigger] hash[i])
}

/// The fields after one more field was read.
pub open spec fn field_added(fields: FieldsModel, field: Seq<char>) -> Result<
    FieldsModel,
    Seq<char>,
> {
    let at = place_of(field, '=', 0);
    if at >= field.len() {
        Err("invalid managed marker field `"@ + field + "`"@)
    } else {
        let key = field.take(at);
        let value = field.skip(at + 1);
        if value.len() == 0 {
            Err("empty managed marker field `"@ + key + "`"@)
        } else if key == "id"@ && fields.id is None {
            Ok(FieldsModel { id: Some(value), version: fields.version, hash: fields.hash })
        } else if key == "version"@ && fields.version is None {
            Ok(FieldsModel { id: fields.id, version: Some(value), hash: fields.hash })
        } else if key == "hash"@ && fields.hash is None {
            Ok(FieldsModel { id: fields.id, version: fields.version, hash: Some(value) })
        } else {
            Err("unknown or duplicate managed marker field `"@ + key + "`"@)
        }
    }
}

/// The fields that the words of a marker behind its token give, up to `count`.
pub open spec fn fields_of(list: Seq<Seq<char>>, count: int) -> Result<FieldsModel, Seq<char>>
    decreases count,
{
    if count <= 1 {
        Ok(FieldsModel { id: None, version: None, hash: None })
    } else {
        match fields_of(list, count - 1) {
            Err(message) => Err(message),
            Ok(fields) => field_added(fields, list[count - 1]),
        }
    }
}

/// The marker that a payload gives.
pub open spec fn payload_marker(
    payload: Seq<char>,
    prefix: Seq<char>,
    suffix: Seq<char>,
) -> Result<Option<MarkerModel>, Seq<char>> {
    let list = words(payload);
    if list.len() == 0 {
        Err("empty managed marker"@)
    } else {
        match fields_of(list, list.len() as int) {
            Err(message) => Err(message),
            Ok(fields) => if fields.id is None {
                Err("managed marker is missing id"@)
            } else if !is_region_id(fields.id->Some_0) {
                Err("managed marker has invalid id `"@ + fields.id->Some_0 + "`"@)
            } else if list[0] == BEGIN_TOKEN@ {
                if fields.version is None {
                    Err("managed begin marker is missing version"@)
                } else if number_of(fields.version->Some_0) is None {
                    Err("managed marker version is not an integer"@)
                } else if fields.hash is None {
                    Err("managed begin marker is missing hash"@)
                } else if !is_region_hash(fields.hash->Some_0) {
                    Err("managed marker hash is not lowercase SHA-256"@)
                } else {
                    Ok(
                        Some(
                            MarkerModel::Begin {
                                id: fields.id->Some_0,
                                version: number_of(fields.version->Some_0)->Some_0,
                                hash: fields.hash->Some_0,
                                prefix,
                                suffix,
                            },
                        ),
                    )
                }
            } else if list[0] == END_TOKEN@ {
                if fields.version is Some || fields.hash is Some {
                    Err("managed end marker may contain only its id"@)
                } else {
                    Ok(Some(MarkerModel::End { id: fields.id->Some_0 }))
                }
            } else {
                Ok(None)
            },
        }
    }
}

/// Whether `part` stands in `line` at `at`.
pub open spec fn stands_at(part: Seq<char>, line: Seq<char>, at: int) -> bool {
    occurs_at(part, line, at)
}

/// Where the token of a marker stands in a line whose blanks end at `start`.
pub open spec fn token_place(line: Seq<char>, start: int) -> Option<int> {
    match first_at(BEGIN_TOKEN@, line, start) {
        Some(at) => Some(at),
        None => first_at(END_TOKEN@, line, start),
    }
}

/// The marker that a line holds.
pub open spec fn line_marker(line: Seq<char>) -> Result<Option<MarkerModel>, Seq<char>> {
    let start = blanks_from(line, 0);
    if stands_at("///"@, line, start) || stands_at("//!"@, line, start) {
        Ok(None)
    } else {
        match token_place(line, start) {
            None => Ok(None),
            Some(at) => if !is_comment_prefix(line.take(at)) {
                if stands_at("#"@, line, start) || stands_at("//"@, line, start) || stands_at(
                    "<!--"@,
                    line,
                    start,
                ) {
                    Err("managed marker must be the only payload in a comment line"@)
                } else {
                    Ok(None)
                }
            } else {
                let value = line.skip(at);
                let end = payload_end(value);
                payload_marker(value.take(end), line.take(at), value.skip(end))
            },
        }
    }
}

// Files.
/// A region whose end was not read yet.
pub struct OpenModel {
    /// Region identifier.
    pub id: Seq<char>,
    /// Marker grammar version.
    pub version: u32,
    /// Recorded hash.
    pub hash: Seq<char>,
    /// Contents so far.
    pub content: Seq<char>,
    /// Where the opening line begins.
    pub begin_start: int,
    /// Where the opening line ends, without its line break.
    pub begin_end: int,
    /// Where the contents begin.
    pub content_start: int,
    /// What stands before the opening token.
    pub prefix: Seq<char>,
    /// What stands behind the opening marker's fields.
    pub suffix: Seq<char>,
}

/// What was read of a file so far.
pub struct ParserModel {
    /// Regions that ended.
    pub regions: Seq<RegionModel>,
    /// The region that did not end.
    pub open: Option<OpenModel>,
    /// Identifiers of all regions.
    pub ids: Seq<Seq<char>>,
}

/// What reading the region that ends at `end` gives.
pub open spec fn region_closed(begin: OpenModel, end: int) -> RegionModel {
    RegionModel {
        id: begin.id,
        version: begin.version,
        hash: begin.hash,
        content: begin.content,
        begin_start: begin.begin_start,
        begin_end: begin.begin_end,
        content_start: begin.content_start,
        content_end: end,
        prefix: begin.prefix,
        suffix: begin.suffix,
    }
}

/// What reading a marker on the line from `start` to `end`, before the line at `next`, gives.
pub open spec fn marker_applied(
    parser: ParserModel,
    marker: MarkerModel,
    start: int,
    end: int,
    next: int,
) -> Result<ParserModel, Seq<char>> {
    match marker {
        MarkerModel::Begin { id, version, hash, prefix, suffix } => if parser.open is Some {
            Err(
                "managed region `"@ + id + "` is nested inside `"@ + parser.open->Some_0.id + "`"@,
            )
        } else if parser.ids.contains(id) {
            Err("duplicate managed region id `"@ + id + "`"@)
        } else {
            Ok(
                ParserModel {
                    regions: parser.regions,
                    open: Some(
                        OpenModel {
                            id,
                            version,
                            hash,
                            content: Seq::empty(),
                            begin_start: start,
                            begin_end: end,
                            content_start: next,
                            prefix,
                            suffix,
                        },
                    ),
                    ids: parser.ids.push(id),
                },
            )
        },
        MarkerModel::End { id } => match parser.open {
            None => Err("managed region end `"@ + id + "` has no opening marker"@),
            Some(begin) => {
                let actual = hex(sha256(encode_utf8(begin.content)));
                if begin.id != id {
                    Err(
                        "managed region `"@ + begin.id + "` ends with mismatched id `"@ + id
                            + "`"@,
                    )
                } else if begin.version != MANAGED_MARKER_VERSION {
                    Err(
                        "managed region `"@ + id + "` uses unsupported marker version "@ + decimal(
                            begin.version as nat,
                        ),
                    )
                } else if begin.hash != actual {
                    Err(
                        "managed region `"@ + id
                            + "` content was edited outside the generator: marker hash "@
                            + begin.hash + ", actual hash "@ + actual,
                    )
                } else {
                    Ok(
                        ParserModel {
                            regions: parser.regions.push(region_closed(begin, start)),
                            open: None,
                            ids: parser.ids,
                        },
                    )
                }
            },
        },
    }
}

/// What reading a line without a marker gives.
pub open spec fn line_kept(parser: ParserModel, line: Seq<char>) -> ParserModel {
    match parser.open {
        None => parser,
        Some(begin) => ParserModel {
            regions: parser.regions,
            open: Some(
                OpenModel {
                    id: begin.id,
                    version: begin.version,
                    hash: begin.hash,
                    content: begin.content + line,
                    begin_start: begin.begin_start,
                    begin_end: begin.begin_end,
                    content_start: begin.content_start,
                    prefix: begin.prefix,
                    suffix: begin.suffix,
                },
            ),
            ids: parser.ids,
        },
    }
}

/// What reading one line, which stands at `at` and ends with its line feed, gives.
pub open spec fn line_read(parser: ParserModel, line: Seq<char>, at: int) -> Result<
    ParserModel,
    Seq<char>,
> {
    let end = before_breaks(line, line.len() as int);
    match line_marker(line.take(end)) {
        Err(message) => Err(message),
        Ok(None) => Ok(line_kept(parser, line)),
        Ok(Some(marker)) => marker_applied(parser, marker, at, at + end, at + line.len()),
    }
}

/// What reading `text`, which stands at `at`, gives.
pub open spec fn text_read(parser: ParserModel, text: Seq<char>, at: int) -> Result<
    ParserModel,
    Seq<char>,
>
    decreases text.len(),
    when text.len() >= 0
    via text_read_decreases
{
    if text.len() == 0 {
        Ok(parser)
    } else {
        let length = line_length(text, 0);
        match line_read(parser, text.take(length), at) {
            Err(message) => Err(message),
            Ok(next) => text_read(next, text.skip(length), at + length),
        }
    }
}

#[via_fn]
proof fn text_read_decreases(parser: ParserModel, text: Seq<char>, at: int) {
    if text.len() > 0 {
        lemma_line_length(text, 0);
    }
}

/// A line has at least one character, ends with the text or with its only line feed.
pub proof fn lemma_line_length(text: Seq<char>, at: int)
    requires
        0 <= at < text.len(),
    ensures
        at < line_length(text, at) <= text.len(),
        line_length(text, at) < text.len() ==> text[line_length(text, at) - 1] == '\n',
        forall|i: int| at <= i < line_length(text, at) - 1 ==> text[i] != '\n',
    decreases text.len() - at,
{
    if text[at] != '\n' {
        if at + 1 < text.len() {
            lemma_line_length(text, at + 1);
        } else {
            assert(line_length(text, at + 1) == at + 1);
        }
    }
}

/// The parser before anything was read.
pub open spec fn no_regions() -> ParserModel {
    ParserModel { regions: Seq::empty(), open: None, ids: Seq::empty() }
}

/// The regions of a file, or why it has none that can be told.
pub open spec fn regions_of(source: Seq<char>) -> Result<Seq<RegionModel>, Seq<char>> {
    match text_read(no_regions(), source, 0) {
        Err(message) => Err(message),
        Ok(parser) => match parser.open {
            Some(begin) => Err("managed region `"@ + begin.id + "` is missing its end marker"@),
            None => Ok(parser.regions),
        },
    }
}

// Reading.
fn slice_chars(chars: &Vec<char>, start: usize, end: usize) -> (part: Vec<char>)
    requires
        start <= end <= chars@.len(),
    ensures
        part@ == chars@.subrange(start as int, end as int),
{
    let mut part: Vec<char> = Vec::new();
    let mut index: usize = start;
    while index < end
        invariant
            start <= index <= end <= chars@.len(),
            part@ == chars@.subrange(start as int, index as int),
        decreases end - index,
    {
        part.push(chars[index]);
        index += 1;
        assert(part@ =~= chars@.subrange(start as int, index as int));
    }
    part
}

fn count_blanks(line: &Vec<char>) -> (count: usize)
    ensures
        count == blanks_from(line@, 0),
        count <= line@.len(),
{
    let mut index: usize = 0;
    while index < line.len() && (line[index] == ' ' || line[index] == '\t')
        invariant
            index <= line@.len(),
            blanks_from(line@, 0) == blanks_from(line@, index as int),
        decreases line@.len() - index,
    {
        index += 1;
    }
    index
}

fn trim_blanks(line: &Vec<char>, end: usize) -> (result: usize)
    requires
        end <= line@.len(),
    ensures
        result == before_blanks(line@, end as int),
        result <= end,
{
    let mut index: usize = end;
    while index > 0 && (line[index - 1] == ' ' || line[index - 1] == '\t')
        invariant
            index <= end <= line@.len(),
            before_blanks(line@, end as int) == before_blanks(line@, index as int),
        decreases index,
    {
        index -= 1;
    }
    index
}

fn trim_breaks(line: &Vec<char>) -> (result: usize)
    ensures
        result == before_breaks(line@, line@.len() as int),
        result <= line@.len(),
{
    let mut index: usize = line.len();
    while index > 0 && (line[index - 1] == '\r' || line[index - 1] == '\n')
        invariant
            index <= line@.len(),
            before_breaks(line@, line@.len() as int) == before_breaks(line@, index as int),
        decreases index,
    {
        index -= 1;
    }
    index
}

fn find_from(part: &str, line: &Vec<char>, from: usize) -> (place: Option<usize>)
    requires
        from <= line@.len(),
    ensures
        match place {
            Some(at) => first_at(part@, line@, from as int) == Some(at as int) && at + part@.len()
                <= line@.len(),
            None => first_at(part@, line@, from as int) is None,
        },
{
    let wanted = chars_of(part);
    let length: usize = line.len();
    if wanted.len() > length {
        assert(first_at(part@, line@, from as int) is None);
        return None;
    }
    let last: usize = length - wanted.len();
    let mut index: usize = from;
    while index <= last
        invariant
            wanted@ == part@,
            length == line@.len(),
            last == length - wanted@.len(),
            from <= index <= length + 1,
            first_at(part@, line@, from as int) == first_at(part@, line@, index as int),
        decreases length + 1 - index,
    {
        if holds_at(line, index, &wanted) {
            assert(occurs_at(part@, line@, index as int));
            return Some(index);
        }
        if index == length {
            assert(first_at(part@, line@, index + 1) is None);
            return None;
        }
        index += 1;
    }
    None
}

fn stands(part: &str, line: &Vec<char>, at: usize) -> (found: bool)
    requires
        at <= line@.len(),
    ensures
        found == stands_at(part@, line@, at as int),
{
    let wanted = chars_of(part);
    if wanted.len() > line.len() - at {
        return false;
    }
    holds_at(line, at, &wanted)
}

/// Splits `text` into words separated by ASCII white space.
pub fn split_words(text: &Vec<char>) -> (list: Vec<String>)
    ensures
        texts(list@) == words(text@),
{
    let mut list: Vec<String> = Vec::new();
    let mut word = String::new();
    let mut index: usize = 0;
    assert(texts(list@) =~= words_so_far(text@.take(0)).0);
    while index < text.len()
        invariant
            index <= text@.len(),
            (texts(list@), word@) == words_so_far(text@.take(index as int)),
        decreases text@.len() - index,
    {
        let character = text[index];
        assert(text@.take(index + 1).drop_last() =~= text@.take(index as int));
        assert(text@.take(index + 1).last() == character);
        if character == ' ' || character == '\t' || character == '\n' || character == '\r'
            || character == '\u{c}' {
            if !word.as_str().is_empty() {
                let ghost before = texts(list@);
                let ghost closed_word = word@;
                list.push(word);
                word = String::new();
                assert(texts(list@) =~= before.push(closed_word));
            }
        } else {
            word.push(character);
        }
        index += 1;
    }
    assert(text@.take(index as int) =~= text@);
    if !word.as_str().is_empty() {
        let ghost before = texts(list@);
        let ghost closed_word = word@;
        list.push(word);
        assert(texts(list@) =~= before.push(closed_word));
    }
    list
}

fn find_char(text: &Vec<char>, character: char) -> (place: usize)
    ensures
        place == place_of(text@, character, 0),
        place <= text@.len(),
{
    let mut index: usize = 0;
    while index < text.len() && text[index] != character
        invariant
            index <= text@.len(),
            place_of(text@, character, 0) == place_of(text@, character, index as int),
        decreases text@.len() - index,
    {
        index += 1;
    }
    index
}

proof fn lemma_digits_absent(text: Seq<char>, count: int, total: int)
    requires
        digits_value(text, count) is None,
        count <= total,
    ensures
        digits_value(text, total) is None,
    decreases total - count,
{
    if count < total {
        lemma_digits_absent(text, count, total - 1);
    }
}

proof fn lemma_digits_grow(text: Seq<char>, count: int, total: int)
    requires
        0 <= count <= total,
        digits_value(text, total) is Some,
    ensures
        digits_value(text, count) is Some,
        digits_value(text, count)->Some_0 <= digits_value(text, total)->Some_0,
    decreases total - count,
{
    if count < total {
        lemma_digits_grow(text, count, total - 1);
    }
}

/// Reads decimal digits behind an optional plus sign.
pub fn parse_number(text: &str) -> (number: Option<u32>)
    ensures
        number == number_of(text@),
{
    let all = chars_of(text);
    let start: usize = if all.len() > 0 && all[0] == '+' {
        1
    } else {
        0
    };
    let chars = slice_chars(&all, start, all.len());
    let ghost digits = chars@;
    assert(digits =~= if text@.len() > 0 && text@[0] == '+' {
        text@.skip(1)
    } else {
        text@
    });
    if chars.len() == 0 {
        return None;
    }
    let mut value: u64 = 0;
    let mut index: usize = 0;
    while index < chars.len()
        invariant
            digits == chars@,
            digits == (if text@.len() > 0 && text@[0] == '+' {
                text@.skip(1)
            } else {
                text@
            }),
            digits.len() > 0,
            index <= digits.len(),
            digits_value(digits, index as int) == Some(value as nat),
            value <= u32::MAX,
        decreases digits.len() - index,
    {
        let character = chars[index];
        if character < '0' || character > '9' {
            proof {
                lemma_digits_absent(digits, index + 1, digits.len() as int);
            }
            return None;
        }
        value = 10 * value + (character as u64 - 48);
        index += 1;
        if value > u32::MAX as u64 {
            proof {
                if digits_value(digits, digits.len() as int) is Some {
                    lemma_digits_grow(digits, index as int, digits.len() as int);
                }
            }
            return None;
        }
    }
    Some(value as u32)
}

enum Marker {
    Begin { id: String, version: u32, hash: String, prefix: String, suffix: String },
    End { id: String },
}

impl Marker {
    spec fn view(&self) -> MarkerModel {
        match *self {
            Marker::Begin { id, version, hash, prefix, suffix } => MarkerModel::Begin {
                id: id@,
                version,
                hash: hash@,
                prefix: prefix@,
                suffix: suffix@,
            },
            Marker::End { id } => MarkerModel::End { id: id@ },
        }
    }
}

spec fn marker_outcome(result: Result<Option<Marker>, RegionError>) -> Result<
    Option<MarkerModel>,
    Seq<char>,
> {
    match result {
        Ok(None) => Ok(None),
        Ok(Some(marker)) => Ok(Some(marker@)),
        Err(error) => Err(error.text()),
    }
}

struct Fields {
    id: Option<String>,
    version: Option<String>,
    hash: Option<String>,
}

impl Fields {
    spec fn view(&self) -> FieldsModel {
        FieldsModel {
            id: crate::text::optional_view(self.id),
            version: crate::text::optional_view(self.version),
            hash: crate::text::optional_view(self.hash),
        }
    }
}

fn read_field(fields: Fields, field: &str) -> (result: Result<Fields, RegionError>)
    ensures
        match result {
            Ok(next) => field_added(fields@, field@) == Ok::<FieldsModel, Seq<char>>(next@),
            Err(error) => field_added(fields@, field@) == Err::<FieldsModel, Seq<char>>(
                error.text(),
            ),
        },
{
    let chars = chars_of(field);
    let at = find_char(&chars, '=');
    if at >= chars.len() {
        return Err(RegionError::new(join3("invalid managed marker field `", field, "`")));
    }
    let key = text_between(&chars, 0, at);
    let value = text_between(&chars, at + 1, chars.len());
    assert(field@.take(at as int) =~= field@.subrange(0, at as int));
    assert(field@.skip(at + 1) =~= field@.subrange(at + 1, field@.len() as int));
    if value.as_str().is_empty() {
        return Err(RegionError::new(join3("empty managed marker field `", key.as_str(), "`")));
    }
    if same_text(key.as_str(), "id") && fields.id.is_none() {
        Ok(Fields { id: Some(value), version: fields.version, hash: fields.hash })
    } else if same_text(key.as_str(), "version") && fields.version.is_none() {
        Ok(Fields { id: fields.id, version: Some(value), hash: fields.hash })
    } else if same_text(key.as_str(), "hash") && fields.hash.is_none() {
        Ok(Fields { id: fields.id, version: fields.version, hash: Some(value) })
    } else {
        Err(
            RegionError::new(
                join3("unknown or duplicate managed marker field `", key.as_str(), "`"),
            ),
        )
    }
}

proof fn lemma_fields_error(list: Seq<Seq<char>>, count: int, total: int)
    requires
        fields_of(list, count) is Err,
        1 <= count <= total,
    ensures
        fields_of(list, total) == fields_of(list, count),
    decreases total - count,
{
    if count < total {
        lemma_fields_error(list, count, total - 1);
    }
}

fn read_fields(list: &Vec<String>) -> (result: Result<Fields, RegionError>)
    requires
        list@.len() >= 1,
    ensures
        match result {
            Ok(fields) => fields_of(texts(list@), list@.len() as int) == Ok::<
                FieldsModel,
                Seq<char>,
            >(fields@),
            Err(error) => fields_of(texts(list@), list@.len() as int) == Err::<
                FieldsModel,
                Seq<char>,
            >(error.text()),
        },
{
    let ghost all = texts(list@);
    let mut fields = Fields { id: None, version: None, hash: None };
    let mut index: usize = 1;
    while index < list.len()
        invariant
            all == texts(list@),
            1 <= index <= list@.len(),
            fields_of(all, index as int) == Ok::<FieldsModel, Seq<char>>(fields@),
        decreases list@.len() - index,
    {
        assert(all[index as int] == list@[index as int]@);
        match read_field(fields, list[index].as_str()) {
            Ok(next) => {
                fields = next;
            },
            Err(error) => {
                proof {
                    assert(fields_of(all, index + 1) is Err);
                    lemma_fields_error(all, index + 1, all.len() as int);
                }
                return Err(error);
            },
        }
        index += 1;
    }
    Ok(fields)
}

/// Returns whether a string is a region identifier.
pub fn valid_id(id: &str) -> (valid: bool)
    ensures
        valid == is_region_id(id@),
{
    let chars = chars_of(id);
    if chars.len() == 0 || chars.len() > 128 {
        return false;
    }
    let mut index: usize = 0;
    while index < chars.len()
        invariant
            chars@ == id@,
            0 < chars@.len() <= 128,
            index <= chars@.len(),
            forall|i: int| 0 <= i < index ==> is_id_char(#[trigger] id@[i]),
        decreases chars@.len() - index,
    {
        let character = chars[index];
        if !((character >= 'a' && character <= 'z') || (character >= 'A' && character <= 'Z') || (
        character >= '0' && character <= '9') || character == '-' || character == '_' || character
            == '.') {
            assert(!is_id_char(id@[index as int]));
            return false;
        }
        index += 1;
    }
    true
}

fn valid_hash(hash: &str) -> (valid: bool)
    ensures
        valid == is_region_hash(hash@),
{
    let chars = chars_of(hash);
    if chars.len() != 64 {
        return false;
    }
    let mut index: usize = 0;
    while index < 64
        invariant
            chars@ == hash@,
            chars@.len() == 64,
            index <= 64,
            forall|i: int| 0 <= i < index ==> is_lower_hex(#[trigger] hash@[i]),
        decreases 64 - index,
    {
        if !is_hex_digit(chars[index]) {
            assert(!is_lower_hex(hash@[index as int]));
            return false;
        }
        index += 1;
    }
    true
}

/// Returns whether a prefix is nothing but the beginning of a comment.
pub fn valid_prefix(prefix: &str) -> (valid: bool)
    ensures
        valid == is_comment_prefix(prefix@),
{
    let inner = trim_text(prefix);
    same_text(inner, "#") || same_text(inner, "//") || same_text(inner, "<!--")
}

/// Finds where the payload of a marker ends and the end of its comment begins.
pub fn split_comment_suffix(value: &Vec<char>) -> (end: usize)
    ensures
        end == payload_end(value@),
        end <= value@.len(),
{
    let end = trim_blanks(value, value.len());
    proof {
        reveal_strlit("-->");
        assert("-->"@.len() == 3);
    }
    if end >= 3 && stands("-->", value, end - 3) {
        trim_blanks(value, end - 3)
    } else {
        end
    }
}

fn payload_to_marker(payload: &Vec<char>, prefix: String, suffix: String) -> (result: Result<
    Option<Marker>,
    RegionError,
>)
    ensures
        marker_outcome(result) == payload_marker(payload@, prefix@, suffix@),
{
    let list = split_words(payload);
    if list.len() == 0 {
        return Err(RegionError::new("empty managed marker".to_owned()));
    }
    let fields = match read_fields(&list) {
        Ok(fields) => fields,
        Err(error) => {
            return Err(error);
        },
    };
    let ghost model = fields@;
    assert(words(payload@)[0] == list@[0]@);
    let token = &list[0];
    let id = match fields.id {
        Some(id) => id,
        None => {
            return Err(RegionError::new("managed marker is missing id".to_owned()));
        },
    };
    if !valid_id(id.as_str()) {
        return Err(
            RegionError::new(join3("managed marker has invalid id `", id.as_str(), "`")),
        );
    }
    if same_text(token.as_str(), BEGIN_TOKEN) {
        let version = match fields.version {
            Some(text) => match parse_number(text.as_str()) {
                Some(version) => version,
                None => {
                    return Err(
                        RegionError::new("managed marker version is not an integer".to_owned()),
                    );
                },
            },
            None => {
                return Err(
                    RegionError::new("managed begin marker is missing version".to_owned()),
                );
            },
        };
        let hash = match fields.hash {
            Some(hash) => hash,
            None => {
                return Err(RegionError::new("managed begin marker is missing hash".to_owned()));
            },
        };
        if !valid_hash(hash.as_str()) {
            return Err(
                RegionError::new("managed marker hash is not lowercase SHA-256".to_owned()),
            );
        }
        Ok(Some(Marker::Begin { id, version, hash, prefix, suffix }))
    } else if same_text(token.as_str(), END_TOKEN) {
        if fields.version.is_some() || fields.hash.is_some() {
            return Err(
                RegionError::new("managed end marker may contain only its id".to_owned()),
            );
        }
        Ok(Some(Marker::End { id }))
    } else {
        Ok(None)
    }
}

fn parse_marker(line: &Vec<char>) -> (result: Result<Option<Marker>, RegionError>)
    ensures
        marker_outcome(result) == line_marker(line@),
{
    let start = count_blanks(line);
    if stands("///", line, start) || stands("//!", line, start) {
        return Ok(None);
    }
    let place = match find_from(BEGIN_TOKEN, line, start) {
        Some(at) => Some(at),
        None => find_from(END_TOKEN, line, start),
    };
    let at = match place {
        Some(at) => at,
        None => {
            return Ok(None);
        },
    };
    let prefix = text_between(line, 0, at);
    assert(line@.take(at as int) =~= line@.subrange(0, at as int));
    if !valid_prefix(prefix.as_str()) {
        if stands("#", line, start) || stands("//", line, start) || stands("<!--", line, start) {
            return Err(
                RegionError::new(
                    "managed marker must be the only payload in a comment line".to_owned(),
                ),
            );
        }
        return Ok(None);
    }
    let value = slice_chars(line, at, line.len());
    assert(line@.skip(at as int) =~= line@.subrange(at as int, line@.len() as int));
    let end = split_comment_suffix(&value);
    let payload = slice_chars(&value, 0, end);
    let suffix = text_between(&value, end, value.len());
    assert(value@.take(end as int) =~= value@.subrange(0, end as int));
    assert(value@.skip(end as int) =~= value@.subrange(end as int, value@.len() as int));
    payload_to_marker(&payload, prefix, suffix)
}

struct OpenMarker {
    id: String,
    version: u32,
    hash: String,
    begin_line_start: usize,
    begin_line_end: usize,
    content_start: usize,
    prefix: String,
    suffix: String,
}

struct RegionParser {
    regions: Vec<ManagedRegion>,
    open: Option<OpenMarker>,
    ids: TextSet,
}

/// The values of regions.
pub open spec fn region_models(regions: Seq<ManagedRegion>) -> Seq<RegionModel> {
    regions.map_values(|region: ManagedRegion| region@)
}

impl RegionParser {
    /// Whether this parser stands at `at` in `source` where `model` stands.
    spec fn matches(&self, model: ParserModel, source: Seq<char>, at: int) -> bool {
        &&& region_models(self.regions@) == model.regions
        &&& forall|id: Seq<char>| #[trigger] self.ids@.contains(id) <==> model.ids.contains(id)
        &&& match self.open {
            None => model.open is None,
            Some(begin) => {
                &&& begin.content_start <= at
                &&& model.open == Some(
                    OpenModel {
                        id: begin.id@,
                        version: begin.version,
                        hash: begin.hash@,
                        content: source.subrange(begin.content_start as int, at),
                        begin_start: begin.begin_line_start as int,
                        begin_end: begin.begin_line_end as int,
                        content_start: begin.content_start as int,
                        prefix: begin.prefix@,
                        suffix: begin.suffix@,
                    },
                )
            },
        }
    }

    fn apply(
        self,
        source: &Vec<char>,
        marker: Marker,
        line_start: usize,
        line_end: usize,
        next_offset: usize,
        model: Ghost<ParserModel>,
    ) -> (result: Result<Self, RegionError>)
        requires
            self.matches(model@, source@, line_start as int),
            line_start <= line_end <= next_offset <= source@.len(),
        ensures
            match result {
                Ok(parser) => {
                    let next = marker_applied(
                        model@,
                        marker@,
                        line_start as int,
                        line_end as int,
                        next_offset as int,
                    );
                    next is Ok && parser.matches(next->Ok_0, source@, next_offset as int)
                },
                Err(error) => marker_applied(
                    model@,
                    marker@,
                    line_start as int,
                    line_end as int,
                    next_offset as int,
                ) == Err::<ParserModel, Seq<char>>(error.text()),
            },
    {
        let mut parser = self;
        match marker {
            Marker::Begin { id, version, hash, prefix, suffix } => {
                if let Some(existing) = &parser.open {
                    return Err(
                        RegionError::new(
                            join5(
                                "managed region `",
                                id.as_str(),
                                "` is nested inside `",
                                existing.id.as_str(),
                                "`",
                            ),
                        ),
                    );
                }
                let ghost before = parser.ids@;
                let mut ids = parser.ids;
                if !set_add(&mut ids, id.as_str()) {
                    return Err(
                        RegionError::new(
                            join3("duplicate managed region id `", id.as_str(), "`"),
                        ),
                    );
                }
                proof {
                    let old_ids = model@.ids;
                    let new_ids = old_ids.push(id@);
                    assert forall|other: Seq<char>| #[trigger]
                        ids@.contains(other) <==> new_ids.contains(other) by {
                        assert(before.contains(other) <==> old_ids.contains(other));
                        if old_ids.contains(other) {
                            let k = choose|k: int| 0 <= k < old_ids.len() && old_ids[k] == other;
                            assert(new_ids[k] == other);
                        }
                        if other == id@ {
                            assert(new_ids[old_ids.len() as int] == other);
                        }
                    }
                    assert(source@.subrange(next_offset as int, next_offset as int) =~= Seq::<
                        char,
                    >::empty());
                }
                Ok(
                    RegionParser {
                        regions: parser.regions,
                        open: Some(
                            OpenMarker {
                                id,
                                version,
                                hash,
                                begin_line_start: line_start,
                                begin_line_end: line_end,
                                content_start: next_offset,
                                prefix,
                                suffix,
                            },
                        ),
                        ids,
                    },
                )
            },
            Marker::End { id } => {
                let begin = match parser.open {
                    Some(begin) => begin,
                    None => {
                        return Err(
                            RegionError::new(
                                join3(
                                    "managed region end `",
                                    id.as_str(),
                                    "` has no opening marker",
                                ),
                            ),
                        );
                    },
                };
                if !same_text(begin.id.as_str(), id.as_str()) {
                    return Err(
                        RegionError::new(
                            join5(
                                "managed region `",
                                begin.id.as_str(),
                                "` ends with mismatched id `",
                                id.as_str(),
                                "`",
                            ),
                        ),
                    );
                }
                let content = text_between(source, begin.content_start, line_start);
                let actual_hash = sha256_hex(content.as_str().as_bytes());
                if begin.version != MANAGED_MARKER_VERSION {
                    let version = decimal_text(begin.version as u64);
                    return Err(
                        RegionError::new(
                            join4(
                                "managed region `",
                                id.as_str(),
                                "` uses unsupported marker version ",
                                version.as_str(),
                            ),
                        ),
                    );
                }
                if !same_text(begin.hash.as_str(), actual_hash.as_str()) {
                    return Err(
                        RegionError::new(
                            crate::text::join6(
                                "managed region `",
                                id.as_str(),
                                "` content was edited outside the generator: marker hash ",
                                begin.hash.as_str(),
                                ", actual hash ",
                                actual_hash.as_str(),
                            ),
                        ),
                    );
                }
                let ghost before = region_models(parser.regions@);
                let mut regions = parser.regions;
                let region = ManagedRegion {
                    id: begin.id,
                    marker_version: begin.version,
                    content_hash: begin.hash,
                    content,
                    begin_line_start: begin.begin_line_start,
                    begin_line_end: begin.begin_line_end,
                    content_start: begin.content_start,
                    content_end: line_start,
                    prefix: begin.prefix,
                    suffix: begin.suffix,
                };
                let ghost value = region@;
                regions.push(region);
                assert(region_models(regions@) =~= before.push(value));
                Ok(RegionParser { regions, open: None, ids: parser.ids })
            },
        }
    }
}

fn next_line(chars: &Vec<char>, offset: usize) -> (next: usize)
    requires
        offset < chars@.len(),
    ensures
        next == offset + line_length(chars@.skip(offset as int), 0),
        offset < next <= chars@.len(),
{
    let ghost rest = chars@.skip(offset as int);
    let mut index: usize = offset;
    proof {
        lemma_line_length(rest, 0);
    }
    while index < chars.len()
        invariant
            rest == chars@.skip(offset as int),
            offset <= index <= chars@.len(),
            line_length(rest, 0) == line_length(rest, index - offset),
            0 < line_length(rest, 0) <= rest.len(),
        decreases chars@.len() - index,
    {
        assert(rest[index - offset] == chars@[index as int]);
        if chars[index] == '\n' {
            return index + 1;
        }
        index += 1;
    }
    index
}

/// Parses every managed region while rejecting malformed, nested, duplicate, orphaned, or
/// hash-invalid markers. A file with no markers has no regions.
pub fn parse_managed_regions(source: &str) -> (result: Result<Vec<ManagedRegion>, RegionError>)
    ensures
        match result {
            Ok(regions) => regions_of(source@) == Ok::<Seq<RegionModel>, Seq<char>>(
                region_models(regions@),
            ),
            Err(error) => regions_of(source@) == Err::<Seq<RegionModel>, Seq<char>>(error.text()),
        },
{
    let chars = chars_of(source);
    parse_regions(&chars)
}

fn parse_regions(chars: &Vec<char>) -> (result: Result<Vec<ManagedRegion>, RegionError>)
    ensures
        match result {
            Ok(regions) => regions_of(chars@) == Ok::<Seq<RegionModel>, Seq<char>>(
                region_models(regions@),
            ),
            Err(error) => regions_of(chars@) == Err::<Seq<RegionModel>, Seq<char>>(error.text()),
        },
{
    let mut parser = RegionParser { regions: Vec::new(), open: None, ids: Sorted::new() };
    let ghost mut model = no_regions();
    let mut offset: usize = 0;
    proof {
        assert(region_models(parser.regions@) =~= Seq::<RegionModel>::empty());
        assert(chars@.skip(0) =~= chars@);
    }
    while offset < chars.len()
        invariant
            offset <= chars@.len(),
            parser.matches(model, chars@, offset as int),
            text_read(no_regions(), chars@, 0) == text_read(
                model,
                chars@.skip(offset as int),
                offset as int,
            ),
        decreases chars@.len() - offset,
    {
        let next = next_line(chars, offset);
        let ghost rest = chars@.skip(offset as int);
        let ghost length = line_length(rest, 0);
        let segment = slice_chars(chars, offset, next);
        let end = trim_breaks(&segment);
        let line = slice_chars(&segment, 0, end);
        proof {
            assert(segment@ =~= rest.take(length));
            assert(line@ =~= segment@.take(end as int));
            assert(rest.skip(length) =~= chars@.skip(next as int));
        }
        match parse_marker(&line) {
            Err(error) => {
                return Err(error);
            },
            Ok(None) => {
                proof {
                    let kept = line_kept(model, segment@);
                    if parser.open is Some {
                        let start = parser.open->Some_0.content_start as int;
                        assert(chars@.subrange(start, next as int) =~= chars@.subrange(
                            start,
                            offset as int,
                        ) + segment@);
                    }
                    model = kept;
                }
            },
            Ok(Some(marker)) => {
                let ghost applied = marker_applied(
                    model,
                    marker@,
                    offset as int,
                    offset + end,
                    next as int,
                );
                match parser.apply(chars, marker, offset, offset + end, next, Ghost(model)) {
                    Ok(updated) => {
                        parser = updated;
                        proof {
                            model = applied->Ok_0;
                        }
                    },
                    Err(error) => {
                        return Err(error);
                    },
                }
            },
        }
        offset = next;
    }
    proof {
        assert(chars@.skip(offset as int).len() == 0);
    }
    if let Some(begin) = parser.open {
        return Err(
            RegionError::new(
                join3("managed region `", begin.id.as_str(), "` is missing its end marker"),
            ),
        );
    }
    Ok(parser.regions)
}

// Places.
/// Whether a region stands in `source` where it says.
pub open spec fn is_placed(region: RegionModel, source: Seq<char>) -> bool {
    &&& 0 <= region.begin_start <= region.begin_end <= region.content_start
    &&& region.content_start <= region.content_end <= source.len()
    &&& region.content == source.subrange(region.content_start, region.content_end)
}

spec fn parser_placed(parser: ParserModel, source: Seq<char>, at: int) -> bool {
    &&& 0 <= at <= source.len()
    &&& forall|i: int|
        0 <= i < parser.regions.len() ==> is_placed(#[trigger] parser.regions[i], source)
    &&& parser.open matches Some(begin) ==> {
        &&& 0 <= begin.begin_start <= begin.begin_end <= begin.content_start <= at
        &&& begin.content == source.subrange(begin.content_start, at)
    }
}

/// Line breaks end at the end of the line.
pub proof fn lemma_before_breaks(line: Seq<char>, end: int)
    requires
        0 <= end <= line.len(),
    ensures
        0 <= before_breaks(line, end) <= end,
        forall|i: int|
            before_breaks(line, end) <= i < end ==> line[i] == '\r' || line[i] == '\n',
        before_breaks(line, end) > 0 ==> line[before_breaks(line, end) - 1] != '\r' && line[
            before_breaks(line, end) - 1] != '\n',
    decreases end,
{
    if 0 < end && (line[end - 1] == '\r' || line[end - 1] == '\n') {
        lemma_before_breaks(line, end - 1);
    }
}

proof fn lemma_read_placed(parser: ParserModel, source: Seq<char>, at: int)
    requires
        parser_placed(parser, source, at),
    ensures
        text_read(parser, source.skip(at), at) matches Ok(last) ==> parser_placed(
            last,
            source,
            source.len() as int,
        ),
    decreases source.len() - at,
{
    let rest = source.skip(at);
    if rest.len() > 0 {
        lemma_line_length(rest, 0);
        let length = line_length(rest, 0);
        let line = rest.take(length);
        let end = before_breaks(line, line.len() as int);
        lemma_before_breaks(line, line.len() as int);
        match line_read(parser, line, at) {
            Err(_) => {},
            Ok(next) => {
                assert(rest.skip(length) =~= source.skip(at + length));
                match line_marker(line.take(end)) {
                    Err(_) => {},
                    Ok(None) => {
                        if parser.open is Some {
                            let start = parser.open->Some_0.content_start;
                            assert(source.subrange(start, at + length) =~= source.subrange(
                                start,
                                at,
                            ) + line);
                        }
                    },
                    Ok(Some(marker)) => {
                        assert(source.subrange(at + length, at + length) =~= Seq::<char>::empty());
                        assert forall|i: int| 0 <= i < next.regions.len() implies is_placed(
                            #[trigger] next.regions[i],
                            source,
                        ) by {
                            if i < parser.regions.len() {
                                assert(next.regions[i] == parser.regions[i]);
                            }
                        }
                    },
                }
                lemma_read_placed(next, source, at + length);
            },
        }
    } else {
        assert(at == source.len());
    }
}

/// Every region stands in its file where it says.
pub proof fn lemma_regions_placed(source: Seq<char>)
    ensures
        regions_of(source) matches Ok(regions) ==> forall|i: int|
            0 <= i < regions.len() ==> is_placed(#[trigger] regions[i], source),
{
    assert(source.skip(0) =~= source);
    lemma_read_placed(no_regions(), source, 0);
}

// Replacement.
/// Whether contents can replace those of a region: they end with a line feed and hold no marker.
pub open spec fn is_replacement(content: Seq<char>) -> bool {
    (content.len() == 0 || content.last() == '\n') && !occurs("omnius:managed-"@, content)
}

/// The place of the first region with identifier `id`; the number of regions if there is none.
pub open spec fn region_place(regions: Seq<RegionModel>, id: Seq<char>, from: int) -> int
    decreases regions.len() - from,
{
    if from < 0 || from >= regions.len() || regions[from].id == id {
        from
    } else {
        region_place(regions, id, from + 1)
    }
}

/// The opening marker of a region with another hash.
pub open spec fn marker_text(region: RegionModel, hash: Seq<char>) -> Seq<char> {
    region.prefix + BEGIN_TOKEN@ + " id="@ + region.id + " version="@ + decimal(
        region.version as nat,
    ) + " hash="@ + hash + region.suffix
}

/// The file with the contents of one region replaced: all text before the opening marker and
/// from the closing marker on stays.
pub open spec fn replaced(source: Seq<char>, region: RegionModel, content: Seq<char>) -> Seq<char> {
    source.take(region.begin_start) + marker_text(region, hex(sha256(encode_utf8(content))))
        + source.subrange(region.begin_end, region.content_start) + content + source.skip(
        region.content_end,
    )
}

/// What replacing the contents of the region that `expected` records gives.
pub open spec fn reconciled(source: Seq<char>, expected: RecordModel, content: Seq<char>) -> Result<
    Seq<char>,
    Seq<char>,
> {
    if !is_replacement(content) {
        Err(
            "managed replacement content must end with a newline and may not contain markers"@,
        )
    } else {
        match regions_of(source) {
            Err(message) => Err(message),
            Ok(regions) => {
                let place = region_place(regions, expected.id, 0);
                let region = regions[place];
                if place >= regions.len() {
                    Err(
                        "managed region `"@ + expected.id + "` is missing from `"@ + expected.path
                            + "`"@,
                    )
                } else if region.version != expected.marker_version {
                    Err(
                        "managed region `"@ + expected.id + "` marker version changed from "@
                            + decimal(expected.marker_version as nat) + " to "@ + decimal(
                            region.version as nat,
                        ),
                    )
                } else if region.hash != expected.content_hash {
                    Err(
                        "managed region `"@ + expected.id
                            + "` hash differs from project state: state "@
                            + expected.content_hash + ", marker "@ + region.hash,
                    )
                } else if hex(sha256(encode_utf8(content))) == region.hash && content
                    == region.content {
                    Ok(source)
                } else {
                    Ok(replaced(source, region, content))
                }
            },
        }
    }
}

impl ManagedRegion {
    /// Returns the file with the contents of this region replaced.
    fn replace_content(&self, chars: &Vec<char>, new_content: &str, new_hash: &str) -> (text:
        String)
        requires
            is_placed(self@, chars@),
            new_hash@ == hex(sha256(encode_utf8(new_content@))),
        ensures
            text@ == replaced(chars@, self@, new_content@),
    {
        let version = decimal_text(self.marker_version as u64);
        let mut text = text_between(chars, 0, self.begin_line_start);
        text.append(self.prefix.as_str());
        text.append(BEGIN_TOKEN);
        text.append(" id=");
        text.append(self.id.as_str());
        text.append(" version=");
        text.append(version.as_str());
        text.append(" hash=");
        text.append(new_hash);
        text.append(self.suffix.as_str());
        let line_break = text_between(chars, self.begin_line_end, self.content_start);
        let tail = text_between(chars, self.content_end, chars.len());
        text.append(line_break.as_str());
        text.append(new_content);
        text.append(tail.as_str());
        assert(chars@.take(self@.begin_start) =~= chars@.subrange(0, self@.begin_start));
        assert(chars@.skip(self@.content_end) =~= chars@.subrange(
            self@.content_end,
            chars@.len() as int,
        ));
        assert(text@ =~= replaced(chars@, self@, new_content@));
        text
    }
}

/// Replaces one approved region and updates only its opening marker and content. Everything
/// before the opening marker and from the closing marker onward is retained exactly.
pub fn reconcile_managed_region(
    source: &str,
    expected: &ManagedRegionRecord,
    new_content: &str,
) -> (result: Result<String, RegionError>)
    ensures
        match result {
            Ok(text) => reconciled(source@, expected@, new_content@) == Ok::<
                Seq<char>,
                Seq<char>,
            >(text@),
            Err(error) => reconciled(source@, expected@, new_content@) == Err::<
                Seq<char>,
                Seq<char>,
            >(error.text()),
        },
        result matches Ok(text) ==> regions_of(text@) is Ok && reads_back(
            regions_of(source@)->Ok_0,
            regions_of(text@)->Ok_0,
            region_place(regions_of(source@)->Ok_0, expected@.id, 0),
            new_content@,
        ),
{
    let content_chars = chars_of(new_content);
    if (content_chars.len() > 0 && content_chars[content_chars.len() - 1] != '\n')
        || contains_text(new_content, "omnius:managed-") {
        return Err(
            RegionError::new(
                "managed replacement content must end with a newline and may not contain markers".to_owned(),
            ),
        );
    }
    let chars = chars_of(source);
    let regions = match parse_regions(&chars) {
        Ok(regions) => regions,
        Err(error) => {
            return Err(error);
        },
    };
    let ghost all = region_models(regions@);
    proof {
        lemma_regions_placed(source@);
    }
    let mut place: usize = 0;
    while place < regions.len() && !same_text(regions[place].id.as_str(), expected.id.as_str())
        invariant
            all == region_models(regions@),
            place <= regions@.len(),
            region_place(all, expected@.id, 0) == region_place(all, expected@.id, place as int),
        decreases regions@.len() - place,
    {
        assert(all[place as int] == regions@[place as int]@);
        place += 1;
    }
    if place >= regions.len() {
        return Err(
            RegionError::new(
                join5(
                    "managed region `",
                    expected.id.as_str(),
                    "` is missing from `",
                    expected.path.as_str(),
                    "`",
                ),
            ),
        );
    }
    let region = &regions[place];
    let ghost model = region@;
    assert(all[place as int] == model);
    assert(region_place(all, expected@.id, 0) == place);
    if region.marker_version != expected.marker_version {
        let before = decimal_text(expected.marker_version as u64);
        let after = decimal_text(region.marker_version as u64);
        return Err(
            RegionError::new(
                crate::text::join6(
                    "managed region `",
                    expected.id.as_str(),
                    "` marker version changed from ",
                    before.as_str(),
                    " to ",
                    after.as_str(),
                ),
            ),
        );
    }
    if !same_text(region.content_hash.as_str(), expected.content_hash.as_str()) {
        return Err(
            RegionError::new(
                crate::text::join6(
                    "managed region `",
                    expected.id.as_str(),
                    "` hash differs from project state: state ",
                    expected.content_hash.as_str(),
                    ", marker ",
                    region.content_hash.as_str(),
                ),
            ),
        );
    }
    let new_hash = sha256_hex(new_content.as_bytes());
    if same_text(new_hash.as_str(), region.content_hash.as_str()) && same_text(
        new_content,
        region.content.as_str(),
    ) {
        return Ok(source.to_owned());
    }
    assert(is_placed(model, source@));
    let text = region.replace_content(&chars, new_content, new_hash.as_str());
    proof {
        lemma_replaced_reads(source@, place as int, new_content@);
    }
    Ok(text)
}

} // verus!

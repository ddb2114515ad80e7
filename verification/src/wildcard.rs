//! Matching of path components against patterns with `?` and `*`.

use vstd::prelude::*;
use vstd::string::*;
use vstd::utf8::*;

verus! {

/// Whether bytes match a pattern in which `?` stands for any byte and `*` for any bytes.
pub open spec fn matches_pattern(pattern: Seq<u8>, value: Seq<u8>) -> bool
    decreases pattern.len(), value.len(),
{
    if pattern.len() == 0 {
        value.len() == 0
    } else if pattern[0] == 42 {
        matches_pattern(pattern.drop_first(), value) || (value.len() > 0 && matches_pattern(
            pattern,
            value.drop_first(),
        ))
    } else {
        &&& value.len() > 0
        &&& pattern[0] == 63 || pattern[0] == value[0]
        &&& matches_pattern(pattern.drop_first(), value.drop_first())
    }
}

/// Whether only `*` remains of a pattern.
pub open spec fn only_stars(pattern: Seq<u8>, at: int) -> bool
    decreases pattern.len() - at,
{
    at >= pattern.len() || (pattern[at] == 42 && only_stars(pattern, at + 1))
}

/// The outcome of a scan that takes a byte as itself before it takes it as a wildcard: `p` and
/// `v` are the places reached in the pattern and the value, `star` the place of the last `*`
/// taken as a wildcard, or -1, and `from` where the bytes behind those that it stands for begin.
pub open spec fn scan(
    pattern: Seq<u8>,
    value: Seq<u8>,
    p: int,
    v: int,
    star: int,
    from: int,
) -> bool
    decreases pattern.len() - star, value.len() - from, value.len() - v,
{
    if !(-1 <= star < p <= pattern.len() && 0 <= from <= v) {
        false
    } else if v >= value.len() {
        only_stars(pattern, p)
    } else if p < pattern.len() && (pattern[p] == 63 || pattern[p] == value[v]) {
        scan(pattern, value, p + 1, v + 1, star, from)
    } else if p < pattern.len() && pattern[p] == 42 {
        scan(pattern, value, p + 1, v, p, v)
    } else if star >= 0 {
        scan(pattern, value, star + 1, from + 1, star, from + 1)
    } else {
        false
    }
}

/// Whether a path component matches a pattern, byte by byte.
pub open spec fn component_matches(pattern: Seq<char>, value: Seq<char>) -> bool {
    scan(encode_utf8(pattern), encode_utf8(value), 0, 0, -1, 0)
}

/// Returns whether a path component matches a pattern.
pub fn wildcard_component_matches(pattern: &str, value: &str) -> (matched: bool)
    ensures
        matched == component_matches(pattern@, value@),
{
    let ghost goal = component_matches(pattern@, value@);
    let pattern_bytes = pattern.as_bytes();
    let value_bytes = value.as_bytes();
    let mut pattern_index: usize = 0;
    let mut value_index: usize = 0;
    let mut star_index: Option<usize> = None;
    let mut star_value_index: usize = 0;
    let ghost mut star = -1int;
    while value_index < value_bytes.len()
        invariant
            goal == component_matches(pattern@, value@),
            star == (match star_index {
                Some(index) => index as int,
                None => -1int,
            }),
            -1 <= star < pattern_index <= pattern_bytes@.len(),
            star_value_index <= value_index <= value_bytes@.len(),
            goal == scan(
                pattern_bytes@,
                value_bytes@,
                pattern_index as int,
                value_index as int,
                star,
                star_value_index as int,
            ),
        ensures
            value_index >= value_bytes@.len(),
        decreases
            pattern_bytes@.len() - star,
            value_bytes@.len() - star_value_index,
            value_bytes@.len() - value_index,
    {
        if pattern_index < pattern_bytes.len() && (pattern_bytes[pattern_index] == 63 || pattern_bytes[pattern_index]
            == value_bytes[value_index]) {
            pattern_index += 1;
            value_index += 1;
        } else if pattern_index < pattern_bytes.len() && pattern_bytes[pattern_index] == 42 {
            star_index = Some(pattern_index);
            proof {
                star = pattern_index as int;
            }
            pattern_index += 1;
            star_value_index = value_index;
        } else if let Some(index) = star_index {
            pattern_index = index + 1;
            star_value_index += 1;
            value_index = star_value_index;
        } else {
            return false;
        }
    }
    while pattern_index < pattern_bytes.len() && pattern_bytes[pattern_index] == 42
        invariant
            goal == component_matches(pattern@, value@),
            pattern_index <= pattern_bytes@.len(),
            goal == only_stars(pattern_bytes@, pattern_index as int),
        decreases pattern_bytes@.len() - pattern_index,
    {
        pattern_index += 1;
    }
    pattern_index == pattern_bytes.len()
}

// The scan finds a match exactly when there is one, unless the value itself holds a star.
proof fn lemma_star_suffix(pattern: Seq<u8>, value: Seq<u8>, from: int, to: int)
    requires
        pattern.len() > 0,
        pattern[0] == 42,
        0 <= from <= to <= value.len(),
        matches_pattern(pattern, value.skip(to)),
    ensures
        matches_pattern(pattern, value.skip(from)),
    decreases to - from,
{
    if from < to {
        lemma_star_suffix(pattern, value, from + 1, to);
        assert(value.skip(from).drop_first() =~= value.skip(from + 1));
    }
}

/// Whether the bytes of a pattern between two places match those of a value, without any `*`.
spec fn literal(pattern: Seq<u8>, value: Seq<u8>, p: int, v: int, length: int) -> bool {
    &&& length >= 0
    &&& 0 <= p
    &&& p + length <= pattern.len()
    &&& 0 <= v
    &&& v + length <= value.len()
    &&& forall|i: int|
        p <= i < p + length ==> #[trigger] pattern[i] != 42 && (pattern[i] == 63 || pattern[i]
            == value[v + (i - p)])
}

proof fn lemma_literal(pattern: Seq<u8>, value: Seq<u8>, p: int, v: int, length: int)
    requires
        literal(pattern, value, p, v, length),
    ensures
        matches_pattern(pattern.skip(p), value.skip(v)) == matches_pattern(
            pattern.skip(p + length),
            value.skip(v + length),
        ),
    decreases length,
{
    if length > 0 {
        let rest = pattern.skip(p);
        assert(rest[0] == pattern[p]);
        assert(value.skip(v)[0] == value[v]);
        assert(rest.drop_first() =~= pattern.skip(p + 1));
        assert(value.skip(v).drop_first() =~= value.skip(v + 1));
        assert(literal(pattern, value, p + 1, v + 1, length - 1)) by {
            assert forall|i: int| p + 1 <= i < p + length implies #[trigger] pattern[i] != 42 && (
            pattern[i] == 63 || pattern[i] == value[v + 1 + (i - p - 1)]) by {
                assert(pattern[i] != 42 && (pattern[i] == 63 || pattern[i] == value[v + (i - p)]));
            }
        }
        lemma_literal(pattern, value, p + 1, v + 1, length - 1);
    }
}

/// Where bytes without `*` are followed by anything, a match needs as many bytes.
proof fn lemma_needs(pattern: Seq<u8>, value: Seq<u8>, length: int)
    requires
        0 <= length <= pattern.len(),
        forall|i: int| 0 <= i < length ==> pattern[i] != 42,
        matches_pattern(pattern, value),
    ensures
        value.len() >= length,
        matches_pattern(pattern.skip(length), value.skip(length)),
    decreases length,
{
    if length > 0 {
        assert forall|i: int| 0 <= i < length - 1 implies pattern.drop_first()[i] != 42 by {
            assert(pattern.drop_first()[i] == pattern[i + 1]);
        }
        assert(pattern[0] != 42);
        lemma_needs(pattern.drop_first(), value.drop_first(), length - 1);
        assert(pattern.drop_first().skip(length - 1) =~= pattern.skip(length));
        assert(value.drop_first().skip(length - 1) =~= value.skip(length));
    } else {
        assert(pattern.skip(0) =~= pattern);
        assert(value.skip(0) =~= value);
    }
}

proof fn lemma_only_stars(pattern: Seq<u8>, at: int)
    requires
        0 <= at <= pattern.len(),
    ensures
        only_stars(pattern, at) == matches_pattern(pattern.skip(at), Seq::empty()),
    decreases pattern.len() - at,
{
    if at < pattern.len() {
        lemma_only_stars(pattern, at + 1);
        assert(pattern.skip(at)[0] == pattern[at]);
        assert(pattern.skip(at).drop_first() =~= pattern.skip(at + 1));
    }
}

/// The part of the pattern that a scan still has to match from `from` on.
spec fn remaining(pattern: Seq<u8>, star: int) -> Seq<u8> {
    if star >= 0 {
        pattern.skip(star)
    } else {
        pattern
    }
}

/// What holds of the places that a scan has reached.
spec fn reached(pattern: Seq<u8>, value: Seq<u8>, p: int, v: int, star: int, from: int) -> bool {
    &&& -1 <= star < p <= pattern.len()
    &&& 0 <= from <= v <= value.len()
    &&& v - from == p - star - 1
    &&& star == -1 ==> from == 0
    &&& star >= 0 ==> pattern[star] == 42
    &&& literal(pattern, value, star + 1, from, p - star - 1)
}

proof fn lemma_star_unfolds(pattern: Seq<u8>, value: Seq<u8>, star: int, from: int)
    requires
        0 <= star < pattern.len(),
        pattern[star] == 42,
        0 <= from <= value.len(),
    ensures
        matches_pattern(pattern.skip(star), value.skip(from)) == (matches_pattern(
            pattern.skip(star + 1),
            value.skip(from),
        ) || (from < value.len() && matches_pattern(pattern.skip(star), value.skip(from + 1)))),
{
    assert(pattern.skip(star)[0] == 42);
    assert(pattern.skip(star).drop_first() =~= pattern.skip(star + 1));
    if from < value.len() {
        assert(value.skip(from).drop_first() =~= value.skip(from + 1));
    }
}

/// A match from the places reached on, or a later one.
proof fn lemma_reached(pattern: Seq<u8>, value: Seq<u8>, p: int, v: int, star: int, from: int)
    requires
        reached(pattern, value, p, v, star, from),
    ensures
        matches_pattern(remaining(pattern, star), value.skip(from)) == (matches_pattern(
            pattern.skip(p),
            value.skip(v),
        ) || (star >= 0 && from < value.len() && matches_pattern(
            pattern.skip(star),
            value.skip(from + 1),
        ))),
{
    lemma_literal(pattern, value, star + 1, from, p - star - 1);
    if star >= 0 {
        lemma_star_unfolds(pattern, value, star, from);
    } else {
        assert(pattern.skip(0) =~= pattern);
    }
}

/// A match that begins later.
proof fn lemma_later(
    pattern: Seq<u8>,
    value: Seq<u8>,
    p: int,
    v: int,
    star: int,
    from: int,
) -> (place: int)
    requires
        reached(pattern, value, p, v, star, from),
        star >= 0,
        from < value.len(),
        matches_pattern(pattern.skip(star), value.skip(from + 1)),
    ensures
        from < place,
        place + (p - star - 1) <= value.len(),
        matches_pattern(pattern.skip(p), value.skip(place + (p - star - 1))),
{
    let length = p - star - 1;
    let behind = pattern.skip(star + 1);
    let place = lemma_star_place(pattern, value, star, from + 1);
    assert forall|i: int| 0 <= i < length implies behind[i] != 42 by {
        assert(behind[i] == pattern[star + 1 + i]);
    }
    lemma_needs(behind, value.skip(place), length);
    assert(behind.skip(length) =~= pattern.skip(p));
    assert(value.skip(place).skip(length) =~= value.skip(place + length));
    place
}

proof fn lemma_mismatch(pattern: Seq<u8>, value: Seq<u8>, p: int, v: int)
    requires
        0 <= p <= pattern.len(),
        0 <= v < value.len(),
        p < pattern.len() ==> pattern[p] != 42 && pattern[p] != 63 && pattern[p] != value[v],
    ensures
        !matches_pattern(pattern.skip(p), value.skip(v)),
{
    if p < pattern.len() {
        assert(pattern.skip(p)[0] == pattern[p]);
        assert(value.skip(v)[0] == value[v]);
    }
}

proof fn lemma_scan(pattern: Seq<u8>, value: Seq<u8>, p: int, v: int, star: int, from: int)
    requires
        reached(pattern, value, p, v, star, from),
        forall|i: int| 0 <= i < value.len() ==> value[i] != 42,
    ensures
        scan(pattern, value, p, v, star, from) == matches_pattern(
            remaining(pattern, star),
            value.skip(from),
        ),
    decreases pattern.len() - star, value.len() - from, value.len() - v,
{
    lemma_reached(pattern, value, p, v, star, from);
    let later = star >= 0 && from < value.len() && matches_pattern(
        pattern.skip(star),
        value.skip(from + 1),
    );
    if v >= value.len() {
        lemma_only_stars(pattern, p);
        assert(value.skip(v) =~= Seq::<u8>::empty());
        if later {
            let place = lemma_later(pattern, value, p, v, star, from);
        }
    } else if p < pattern.len() && (pattern[p] == 63 || pattern[p] == value[v]) {
        assert(literal(pattern, value, star + 1, from, p - star)) by {
            assert forall|i: int| star + 1 <= i < p + 1 implies #[trigger] pattern[i] != 42 && (
            pattern[i] == 63 || pattern[i] == value[from + (i - (star + 1))]) by {
                if i == p {
                    assert(from + (i - (star + 1)) == v);
                }
            }
        }
        lemma_scan(pattern, value, p + 1, v + 1, star, from);
    } else if p < pattern.len() && pattern[p] == 42 {
        assert(literal(pattern, value, p + 1, v, 0));
        lemma_scan(pattern, value, p + 1, v, p, v);
        if later {
            let place = lemma_later(pattern, value, p, v, star, from);
            assert(pattern.skip(p)[0] == 42);
            lemma_star_suffix(pattern.skip(p), value, v, place + (p - star - 1));
        }
    } else {
        lemma_mismatch(pattern, value, p, v);
        if star >= 0 {
            assert(literal(pattern, value, star + 1, from + 1, 0));
            lemma_scan(pattern, value, star + 1, from + 1, star, from + 1);
        }
    }
}

/// Where a star's part of a match ends.
proof fn lemma_star_place(pattern: Seq<u8>, value: Seq<u8>, star: int, from: int) -> (place: int)
    requires
        0 <= star < pattern.len(),
        pattern[star] == 42,
        0 <= from <= value.len(),
        matches_pattern(pattern.skip(star), value.skip(from)),
    ensures
        from <= place <= value.len(),
        matches_pattern(pattern.skip(star + 1), value.skip(place)),
    decreases value.len() - from,
{
    assert(pattern.skip(star)[0] == 42);
    assert(pattern.skip(star).drop_first() =~= pattern.skip(star + 1));
    if matches_pattern(pattern.skip(star + 1), value.skip(from)) {
        from
    } else {
        assert(value.skip(from).drop_first() =~= value.skip(from + 1));
        lemma_star_place(pattern, value, star, from + 1)
    }
}

/// A path component without `*` matches a pattern exactly when the pattern's `?` and `*` can be
/// replaced by bytes so that they are the same.
pub proof fn lemma_component_matches(pattern: Seq<char>, value: Seq<char>)
    requires
        !encode_utf8(value).contains(42),
    ensures
        component_matches(pattern, value) == matches_pattern(
            encode_utf8(pattern),
            encode_utf8(value),
        ),
{
    let bytes = encode_utf8(value);
    assert forall|i: int| 0 <= i < bytes.len() implies bytes[i] != 42 by {
        assert(bytes.contains(bytes[i]));
    }
    lemma_scan(encode_utf8(pattern), bytes, 0, 0, -1, 0);
    assert(bytes.skip(0) =~= bytes);
}

} // verus!

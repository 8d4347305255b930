//! Text handling that the standard library does for us, with what it does
//! written down: trimming whitespace and encoding as UTF-16.

use vstd::prelude::*;

verus! {

/// The characters with the Unicode `White_Space` property, which is what
/// `char::is_whitespace` tests for.
pub open spec fn is_white_space(c: char) -> bool {
    ||| ('\u{9}' <= c && c <= '\u{d}')
    ||| c == ' '
    ||| c == '\u{85}'
    ||| c == '\u{a0}'
    ||| c == '\u{1680}'
    ||| ('\u{2000}' <= c && c <= '\u{200a}')
    ||| c == '\u{2028}'
    ||| c == '\u{2029}'
    ||| c == '\u{202f}'
    ||| c == '\u{205f}'
    ||| c == '\u{3000}'
}

/// How many whitespace characters `s` starts with.
pub open spec fn leading_white(s: Seq<char>) -> int
    decreases s.len(),
{
    if s.len() > 0 && is_white_space(s[0]) { 1 + leading_white(s.drop_first()) } else { 0 }
}

/// How many whitespace characters `s` ends with.
pub open spec fn trailing_white(s: Seq<char>) -> int
    decreases s.len(),
{
    if s.len() > 0 && is_white_space(s.last()) { 1 + trailing_white(s.drop_last()) } else { 0 }
}

/// `s` without its leading and trailing whitespace.
pub open spec fn trimmed(s: Seq<char>) -> Seq<char> {
    if leading_white(s) == s.len() {
        Seq::empty()
    } else {
        s.subrange(leading_white(s), s.len() - trailing_white(s))
    }
}

/// Every character of `s` is whitespace.
pub open spec fn all_white(s: Seq<char>) -> bool {
    forall|i: int| 0 <= i < s.len() ==> is_white_space(#[trigger] s[i])
}

proof fn lemma_leading_white(s: Seq<char>)
    ensures
        0 <= leading_white(s) <= s.len(),
        forall|i: int| 0 <= i < leading_white(s) ==> is_white_space(#[trigger] s[i]),
        leading_white(s) < s.len() ==> !is_white_space(s[leading_white(s)]),
    decreases s.len(),
{
    if s.len() > 0 && is_white_space(s[0]) {
        let rest = s.drop_first();
        lemma_leading_white(rest);
        assert forall|i: int| 0 <= i < leading_white(s) implies is_white_space(#[trigger] s[i]) by {
            if i > 0 {
                assert(s[i] == rest[i - 1]);
            }
        }
    }
}

/// A string trims down to nothing exactly when every character of it is
/// whitespace.
pub proof fn trimmed_empty_iff_blank(s: Seq<char>)
    ensures
        trimmed(s).len() == 0 <==> all_white(s),
{
    lemma_leading_white(s);
    if leading_white(s) < s.len() {
        assert(!is_white_space(s[leading_white(s)]));
        lemma_trailing_white(s);
        assert(trimmed(s)[0] == s[leading_white(s)]);
    }
}

proof fn lemma_trailing_white(s: Seq<char>)
    ensures
        0 <= trailing_white(s) <= s.len(),
        forall|i: int| s.len() - trailing_white(s) <= i < s.len() ==> is_white_space(#[trigger] s[i]),
        leading_white(s) < s.len() ==> leading_white(s) < s.len() - trailing_white(s),
    decreases s.len(),
{
    lemma_leading_white(s);
    if s.len() > 0 && is_white_space(s.last()) {
        let init = s.drop_last();
        lemma_trailing_white(init);
        lemma_leading_white(init);
        assert forall|i: int| s.len() - trailing_white(s) <= i < s.len() implies is_white_space(#[trigger] s[i]) by {
            if i < s.len() - 1 {
                assert(s[i] == init[i]);
            }
        }
        if leading_white(s) < s.len() {
            lemma_leading_prefix(s);
        }
    }
}

proof fn lemma_leading_prefix(s: Seq<char>)
    requires
        s.len() > 0,
        is_white_space(s.last()),
        leading_white(s) < s.len(),
    ensures
        leading_white(s.drop_last()) == leading_white(s),
    decreases s.len(),
{
    lemma_leading_white(s);
    if is_white_space(s[0]) {
        let rest = s.drop_first();
        assert(rest.last() == s.last());
        lemma_leading_white(rest);
        if rest.len() > 0 {
            lemma_leading_prefix(rest);
            assert(s.drop_last().drop_first() =~= rest.drop_last());
        }
    }
}

/// `str::trim`: the string without leading and trailing whitespace, where
/// whitespace is the Unicode `White_Space` property, as its documentation
/// says.
#[verifier::external_body]
fn trim_str(s: &str) -> (t: &str)
    ensures
        t@ == trimmed(s@),
{
    s.trim()
}

/// Whether `s` holds nothing but whitespace, the empty string included.
pub fn is_blank(s: &str) -> (blank: bool)
    ensures
        blank == all_white(s@),
{
    let t = trim_str(s);
    proof {
        trimmed_empty_iff_blank(s@);
    }
    t.is_empty()
}

/// `s` with its leading and trailing whitespace removed, as a new string.
pub fn trim_owned(s: &str) -> (t: String)
    ensures
        t@ == trimmed(s@),
{
    trim_str(s).to_owned()
}


/// The UTF-16 code units of one character: itself below U+10000, a
/// surrogate pair above.
pub open spec fn utf16_of_char(c: char) -> Seq<u16> {
    let v = c as u32 as int;
    if v < 0x1_0000 {
        seq![v as u16]
    } else {
        seq![(0xD800 + (v - 0x1_0000) / 0x400) as u16, (0xDC00 + (v - 0x1_0000) % 0x400) as u16]
    }
}

/// The UTF-16 encoding of a string.
pub open spec fn utf16_encode(s: Seq<char>) -> Seq<u16>
    decreases s.len(),
{
    if s.len() == 0 {
        Seq::empty()
    } else {
        utf16_encode(s.drop_last()) + utf16_of_char(s.last())
    }
}

/// `str::encode_utf16`, collected: the string as UTF-16 code units.
#[verifier::external_body]
fn utf16_units(text: &str) -> (units: Vec<u16>)
    ensures
        units@ == utf16_encode(text@),
{
    text.encode_utf16().collect()
}

/// How many UTF-16 units one key event carries at most.
pub const CHUNK_UTF16_UNITS: usize = 20;

/// The first half of a surrogate pair.
pub open spec fn is_lead_surrogate(u: u16) -> bool {
    0xD800 <= u < 0xDC00
}

/// Where the chunk of `units` that starts at `start` ends: at most
/// `CHUNK_UTF16_UNITS` units on, one earlier when that would part a
/// surrogate pair.
pub open spec fn chunk_end(units: Seq<u16>, start: int) -> int {
    let end = if start + CHUNK_UTF16_UNITS < units.len() { start + CHUNK_UTF16_UNITS } else { units.len() as int };
    if end < units.len() && is_lead_surrogate(units[end - 1]) { end - 1 } else { end }
}

/// The chunks that `units` is sent in from `start` on, as ranges.
pub open spec fn chunk_ranges(units: Seq<u16>, start: int) -> Seq<(int, int)>
    decreases units.len() - start,
{
    if start < 0 || start >= units.len() {
        Seq::empty()
    } else {
        seq![(start, chunk_end(units, start))] + chunk_ranges(units, chunk_end(units, start))
    }
}

/// Splits UTF-16 text into the pieces it is typed in, as ranges of units:
/// one after another from the start to the end, each at most
/// `CHUNK_UTF16_UNITS` long, and never parting a surrogate pair.
pub fn utf16_chunks(units: &Vec<u16>) -> (ranges: Vec<(usize, usize)>)
    ensures
        ranges@.len() == chunk_ranges(units@, 0).len(),
        forall|i: int|
            0 <= i < ranges@.len() ==> (#[trigger] ranges@[i].0 as int, ranges@[i].1 as int) == chunk_ranges(units@, 0)[i],
{
    let n = units.len();
    let mut ranges: Vec<(usize, usize)> = Vec::new();
    let mut start: usize = 0;
    while start < n
        invariant
            n == units@.len(),
            start <= n,
            chunk_ranges(units@, 0) =~= ranges@.map_values(|r: (usize, usize)| (r.0 as int, r.1 as int))
                + chunk_ranges(units@, start as int),
        decreases n - start,
    {
        let mut end = if n - start > CHUNK_UTF16_UNITS { start + CHUNK_UTF16_UNITS } else { n };
        if end < n && 0xD800 <= units[end - 1] && units[end - 1] < 0xDC00 {
            end = end - 1;
        }
        assert(end == chunk_end(units@, start as int));
        let ghost before = ranges@;
        ranges.push((start, end));
        assert(ranges@.map_values(|r: (usize, usize)| (r.0 as int, r.1 as int))
            =~= before.map_values(|r: (usize, usize)| (r.0 as int, r.1 as int)) + seq![(start as int, end as int)]);
        start = end;
    }
    assert(chunk_ranges(units@, start as int) =~= Seq::<(int, int)>::empty());
    assert forall|i: int| 0 <= i < ranges@.len() implies (#[trigger] ranges@[i].0 as int, ranges@[i].1 as int)
        == chunk_ranges(units@, 0)[i] by {
        assert(ranges@.map_values(|r: (usize, usize)| (r.0 as int, r.1 as int))[i] == (ranges@[i].0 as int, ranges@[i].1 as int));
    }
    ranges
}

/// The text as the pieces of UTF-16 it is typed in: the units of each chunk
/// of `utf16_chunks`, in order.
pub fn typing_chunks(text: &str) -> (chunks: Vec<Vec<u16>>)
    ensures
        chunks@.len() == chunk_ranges(utf16_encode(text@), 0).len(),
        forall|i: int|
            0 <= i < chunks@.len() ==> (#[trigger] chunks@[i])@ == utf16_encode(text@).subrange(
                chunk_ranges(utf16_encode(text@), 0)[i].0,
                chunk_ranges(utf16_encode(text@), 0)[i].1,
            ),
{
    let units = utf16_units(text);
    let ranges = utf16_chunks(&units);
    proof {
        chunk_ranges_shape(units@, 0);
    }
    let mut chunks: Vec<Vec<u16>> = Vec::new();
    let mut i: usize = 0;
    while i < ranges.len()
        invariant
            i <= ranges@.len(),
            units@ == utf16_encode(text@),
            ranges@.len() == chunk_ranges(units@, 0).len(),
            forall|k: int|
                0 <= k < ranges@.len() ==> (#[trigger] ranges@[k].0 as int, ranges@[k].1 as int) == chunk_ranges(units@, 0)[k],
            forall|k: int| 0 <= k < chunk_ranges(units@, 0).len() ==>
                0 <= (#[trigger] chunk_ranges(units@, 0)[k]).0 < chunk_ranges(units@, 0)[k].1 <= units@.len(),
            chunks@.len() == i,
            forall|k: int|
                0 <= k < i ==> (#[trigger] chunks@[k])@ == units@.subrange(ranges@[k].0 as int, ranges@[k].1 as int),
        decreases ranges@.len() - i,
    {
        let (a, b) = ranges[i];
        assert((a as int, b as int) == chunk_ranges(units@, 0)[i as int]);
        let mut chunk: Vec<u16> = Vec::new();
        let mut k: usize = a;
        while k < b
            invariant
                a <= k <= b,
                b <= units@.len(),
                chunk@ =~= units@.subrange(a as int, k as int),
            decreases b - k,
        {
            chunk.push(units[k]);
            k = k + 1;
        }
        chunks.push(chunk);
        i = i + 1;
    }
    chunks
}

/// The chunks run one after another from `start` to the end of the units,
/// each between one and `CHUNK_UTF16_UNITS` units long.
pub proof fn chunk_ranges_shape(units: Seq<u16>, start: int)
    requires
        0 <= start <= units.len(),
    ensures
        ({
            let r = chunk_ranges(units, start);
            &&& start < units.len() ==> r.len() > 0 && r[0].0 == start && r.last().1 == units.len()
            &&& start == units.len() ==> r.len() == 0
            &&& forall|k: int| 0 <= k < r.len() ==>
                start <= (#[trigger] r[k]).0 < r[k].1 <= units.len() && r[k].1 - r[k].0 <= CHUNK_UTF16_UNITS
            &&& forall|k: int| 0 <= k < r.len() - 1 ==> (#[trigger] r[k]).1 == r[k + 1].0
            &&& forall|k: int| 0 <= k < r.len() ==> (#[trigger] r[k]).1 == chunk_end(units, r[k].0)
        }),
    decreases units.len() - start,
{
    if start < units.len() {
        let e = chunk_end(units, start);
        chunk_ranges_shape(units, e);
        let r = chunk_ranges(units, start);
        let rest = chunk_ranges(units, e);
        assert forall|k: int| 0 <= k < r.len() - 1 implies (#[trigger] r[k]).1 == r[k + 1].0 by {
            if k > 0 {
                assert(r[k] == rest[k - 1]);
                assert(r[k + 1] == rest[k]);
            } else {
                assert(r[1] == rest[0]);
            }
        }
        assert forall|k: int| 0 <= k < r.len() implies
            start <= (#[trigger] r[k]).0 < r[k].1 <= units.len() && r[k].1 - r[k].0 <= CHUNK_UTF16_UNITS
            && r[k].1 == chunk_end(units, r[k].0) by {
            if k > 0 {
                assert(r[k] == rest[k - 1]);
            }
        }
        if e < units.len() {
            assert(r.last() == rest.last());
        }
    }
}

/// A trailing half of a surrogate pair.
pub open spec fn is_trail_surrogate(u: u16) -> bool {
    0xDC00 <= u < 0xE000
}

/// Every first half of a surrogate pair is followed by a second half.
pub open spec fn pairs_complete(units: Seq<u16>) -> bool {
    forall|i: int| 0 <= i < units.len() && is_lead_surrogate(#[trigger] units[i]) ==>
        i + 1 < units.len() && is_trail_surrogate(units[i + 1])
}

proof fn lemma_encoding_pairs_complete(s: Seq<char>)
    ensures
        pairs_complete(utf16_encode(s)),
    decreases s.len(),
{
    if s.len() > 0 {
        let init = utf16_encode(s.drop_last());
        lemma_encoding_pairs_complete(s.drop_last());
        let tail = utf16_of_char(s.last());
        let all = utf16_encode(s);
        assert(all == init + tail);
        let c: char = s.last();
        let v = c as u32 as int;
        vstd::utf8::char_is_scalar(c);
        assert(0 <= v <= 0x10FFFF);
        assert(v < 0xD800 || v >= 0xE000);
        assert forall|i: int| 0 <= i < all.len() && is_lead_surrogate(#[trigger] all[i]) implies
            i + 1 < all.len() && is_trail_surrogate(all[i + 1]) by {
            if i < init.len() {
                assert(all[i] == init[i]);
                assert(all[i + 1] == init[i + 1]);
            } else if i == init.len() + 1 {
                assert(all[i] == tail[1]);
            }
        }
    }
}

/// Typed text is never split inside a surrogate pair: no chunk but the last
/// ends right after the first half of one, so every chunk is whole
/// characters.
pub proof fn chunks_keep_pairs_whole(text: Seq<char>, k: int)
    requires
        0 <= k < chunk_ranges(utf16_encode(text), 0).len() - 1,
    ensures
        ({
            let units = utf16_encode(text);
            let r = chunk_ranges(units, 0);
            !is_lead_surrogate(units[r[k].1 - 1])
        }),
{
    let units = utf16_encode(text);
    lemma_encoding_pairs_complete(text);
    chunk_ranges_shape(units, 0);
    let r = chunk_ranges(units, 0);
    let start = r[k].0;
    let e = r[k].1;
    let end0 = if start + CHUNK_UTF16_UNITS < units.len() { start + CHUNK_UTF16_UNITS } else { units.len() as int };
    if end0 < units.len() && is_lead_surrogate(units[end0 - 1]) {
        assert(e == end0 - 1);
        if is_lead_surrogate(units[e - 1]) {
            assert(is_trail_surrogate(units[e]));
        }
    } else {
        assert(e == end0);
        assert(e < units.len());
    }
}

} // verus!

//! Glyph mapping.
//!
//! A glyph mapping assigns characters their position in a font's glyph
//! atlas. It is decoded from a compact string: each ordinary character of
//! the string claims one glyph slot for itself, and a `\0` marker followed
//! by two characters claims one slot for every character of the inclusive
//! range between them, in code-point order. Slots are numbered from zero
//! in declaration order. Characters that no entry claims fall back to a
//! configured replacement slot.

use vstd::prelude::*;
use vstd::string::StrSliceExecFns;

verus! {

/// Does the code-point value `x` denote a Unicode scalar value?
pub open spec fn is_scalar(x: int) -> bool {
    0 <= x <= 0x10FFFF && !(0xD800 <= x <= 0xDFFF)
}

/// Every `char` is a Unicode scalar value, and casting it to `u32` keeps
/// its code point.
pub proof fn lemma_char_bounds(c: char)
    ensures
        is_scalar(c as int),
        (c as u32) as int == c as int,
{
    vstd::utf8::char_is_scalar(c);
    vstd::utf8::char_u32_cast(c, c as u32);
}

/// How many code points of the inclusive range `lo..=hi` fall into the
/// surrogate gap.
pub open spec fn gap_overlap(lo: int, hi: int) -> int {
    let a = if lo > 0xD800 { lo } else { 0xD800 };
    let b = if hi < 0xDFFF { hi } else { 0xDFFF };
    if a > b {
        0
    } else {
        b - a + 1
    }
}

/// How many Unicode scalar values lie in the inclusive code-point range
/// `lo..=hi`.
pub open spec fn scalar_count(lo: int, hi: int) -> int {
    if lo > hi {
        0
    } else {
        hi - lo + 1 - gap_overlap(lo, hi)
    }
}

/// The characters of the inclusive code-point range `lo..=hi`, in
/// code-point order, skipping the surrogate gap.
pub open spec fn char_range(lo: int, hi: int) -> Seq<char>
    decreases hi + 1 - lo,
{
    if lo > hi {
        Seq::empty()
    } else if 0xD800 <= lo <= 0xDFFF {
        if hi < 0xE000 {
            Seq::empty()
        } else {
            char_range(0xE000, hi)
        }
    } else {
        seq![lo as char] + char_range(lo + 1, hi)
    }
}

/// The code point at offset `k` inside the range starting at `lo`, once the
/// surrogate gap is skipped.
pub open spec fn range_value_at(lo: int, k: int) -> int {
    let l = if 0xD800 <= lo <= 0xDFFF {
        0xE000
    } else {
        lo
    };
    if l + k <= 0xD7FF || l >= 0xE000 {
        l + k
    } else {
        l + k + 0x800
    }
}

/// The segments encoded by a mapping string: each an inclusive character
/// range, a single character standing for the range from itself to itself.
/// A range marker that the string ends inside is ignored.
pub open spec fn segments_of(s: Seq<char>) -> Seq<(char, char)>
    decreases s.len(),
{
    if s.len() == 0 {
        Seq::empty()
    } else if s[0] == '\0' {
        if s.len() >= 3 {
            seq![(s[1], s[2])] + segments_of(s.skip(3))
        } else {
            Seq::empty()
        }
    } else {
        seq![(s[0], s[0])] + segments_of(s.skip(1))
    }
}

/// Does the segment claim the character `c`?
pub open spec fn seg_covers(seg: (char, char), c: char) -> bool {
    seg.0 as int <= c as int <= seg.1 as int
}

/// The characters a segment claims, in code-point order.
pub open spec fn seg_chars(seg: (char, char)) -> Seq<char> {
    char_range(seg.0 as int, seg.1 as int)
}

/// How many characters a segment claims.
pub open spec fn seg_len(seg: (char, char)) -> int {
    scalar_count(seg.0 as int, seg.1 as int)
}

/// The position of `c` among the characters of a segment that claims it.
pub open spec fn seg_rank(seg: (char, char), c: char) -> int {
    scalar_count(seg.0 as int, c as int) - 1
}

/// All characters claimed by a sequence of segments, in slot order.
pub open spec fn expansion(segs: Seq<(char, char)>) -> Seq<char>
    decreases segs.len(),
{
    if segs.len() == 0 {
        Seq::empty()
    } else {
        seg_chars(segs[0]) + expansion(segs.skip(1))
    }
}

/// The glyph slot of `c`: the sum of the lengths of the segments that
/// precede the first segment claiming `c`, plus the position of `c` inside
/// that segment; the replacement slot when no segment claims `c`.
pub open spec fn segments_index(segs: Seq<(char, char)>, c: char, offset: int, replacement: int) -> int
    decreases segs.len(),
{
    if segs.len() == 0 {
        replacement
    } else if seg_covers(segs[0], c) {
        offset + seg_rank(segs[0], c)
    } else {
        segments_index(segs.skip(1), c, offset + seg_len(segs[0]), replacement)
    }
}

/// Relies on char::from_u32: the conversion succeeds exactly on Unicode
/// scalar values and yields the character with that code point.
pub assume_specification[ char::from_u32 ](i: u32) -> (r: Option<char>)
    ensures
        r == (if is_scalar(i as int) {
            Some(i as char)
        } else {
            None::<char>
        }),
;

/// Two characters with the same code point are the same character.
pub proof fn lemma_char_eq_from_int(c1: char, c2: char)
    requires
        c1 as int == c2 as int,
    ensures
        c1 == c2,
{
    lemma_char_bounds(c1);
    lemma_char_bounds(c2);
    vstd::utf8::char_u32_cast(c1, c1 as u32);
    vstd::utf8::char_u32_cast(c2, c2 as u32);
}

/// `char_range(lo, hi)` has one entry per Unicode scalar value in the
/// range, and its entry at offset `k` is the code point `range_value_at(lo, k)`,
/// which lies within the range.
proof fn lemma_char_range_props(lo: int, hi: int)
    requires
        0 <= lo,
        hi <= 0x10FFFF,
    ensures
        char_range(lo, hi).len() == scalar_count(lo, hi),
        forall|k: int|
            0 <= k < scalar_count(lo, hi) ==> {
                &&& (#[trigger] char_range(lo, hi)[k]) as int == range_value_at(lo, k)
                &&& lo <= range_value_at(lo, k) <= hi
                &&& is_scalar(range_value_at(lo, k))
            },
    decreases hi + 1 - lo,
{
    if lo > hi {
    } else if 0xD800 <= lo <= 0xDFFF {
        if hi < 0xE000 {
        } else {
            lemma_char_range_props(0xE000, hi);
        }
    } else {
        lemma_char_range_props(lo + 1, hi);
        let r = char_range(lo, hi);
        let rest = char_range(lo + 1, hi);
        assert(r == seq![lo as char] + rest);
        assert(r[0] as int == lo);
        assert forall|k: int| 0 <= k < scalar_count(lo, hi) implies {
            &&& (#[trigger] r[k]) as int == range_value_at(lo, k)
            &&& lo <= range_value_at(lo, k) <= hi
            &&& is_scalar(range_value_at(lo, k))
        } by {
            if k == 0 {
                assert(range_value_at(lo, 0) == lo);
            } else {
                assert(r[k] == rest[k - 1]);
                assert(rest[k - 1] as int == range_value_at(lo + 1, k - 1));
                assert(range_value_at(lo + 1, k - 1) == range_value_at(lo, k));
            }
        }
    }
}

/// Where a character sits inside `char_range`: a claimed character is at
/// offset `scalar_count(lo, c) - 1` and nowhere earlier; an unclaimed one
/// is absent.
proof fn lemma_char_range_membership(lo: int, hi: int, c: char)
    requires
        0 <= lo,
        hi <= 0x10FFFF,
    ensures
        lo <= c as int <= hi ==> {
            let k = scalar_count(lo, c as int) - 1;
            &&& 0 <= k < char_range(lo, hi).len()
            &&& char_range(lo, hi)[k] == c
            &&& forall|j: int| 0 <= j < k ==> char_range(lo, hi)[j] != c
        },
        !(lo <= c as int <= hi) ==> !char_range(lo, hi).contains(c),
{
    lemma_char_bounds(c);
    lemma_char_range_props(lo, hi);
    let r = char_range(lo, hi);
    if lo <= c as int <= hi {
        let k = scalar_count(lo, c as int) - 1;
        assert(range_value_at(lo, k) == c as int);
        assert(0 <= k < scalar_count(lo, hi));
        assert(r[k] as int == c as int);
        lemma_char_bounds(r[k]);
        assert((r[k] as u32) as char == r[k] && (c as u32) as char == c) by {
            vstd::utf8::char_u32_cast(r[k], r[k] as u32);
            vstd::utf8::char_u32_cast(c, c as u32);
        }
        assert(r[k] == c);
        assert forall|j: int| 0 <= j < k implies r[j] != c by {
            assert(r[j] as int == range_value_at(lo, j));
            assert(range_value_at(lo, j) < range_value_at(lo, k));
        }
    } else {
        assert forall|j: int| 0 <= j < r.len() implies r[j] != c by {
            assert(r[j] as int == range_value_at(lo, j));
            assert(lo <= range_value_at(lo, j) <= hi);
        }
        assert(!r.contains(c));
    }
}

/// Expanding a concatenation of segment lists concatenates their
/// expansions.
proof fn lemma_expansion_split(s1: Seq<(char, char)>, s2: Seq<(char, char)>)
    ensures
        expansion(s1 + s2) == expansion(s1) + expansion(s2),
    decreases s1.len(),
{
    if s1.len() == 0 {
        assert(s1 + s2 =~= s2);
        assert(expansion(s1) + expansion(s2) =~= expansion(s2));
    } else {
        assert((s1 + s2).skip(1) =~= s1.skip(1) + s2);
        lemma_expansion_split(s1.skip(1), s2);
        assert((s1 + s2).len() > 0);
        assert((s1 + s2)[0] == s1[0]);
        assert(expansion(s1 + s2) =~= seg_chars(s1[0]) + (expansion(s1.skip(1)) + expansion(
            s2)));
        assert(seg_chars(s1[0]) + (expansion(s1.skip(1)) + expansion(s2)) =~= (seg_chars(s1[0])
            + expansion(s1.skip(1))) + expansion(s2));
    }
}

/// Taking one more segment appends that segment's characters to the
/// expansion, and a prefix of the segments never expands to more
/// characters than the whole.
proof fn lemma_expansion_take(segs: Seq<(char, char)>, k: int)
    requires
        0 <= k < segs.len(),
    ensures
        expansion(segs.take(k + 1)) == expansion(segs.take(k)) + seg_chars(segs[k]),
        expansion(segs.take(k + 1)).len() <= expansion(segs).len(),
{
    assert(segs.take(k + 1) =~= segs.take(k) + seq![segs[k]]);
    lemma_expansion_split(segs.take(k), seq![segs[k]]);
    assert(expansion(seq![segs[k]]) =~= seg_chars(segs[k]) + expansion(
        seq![segs[k]].skip(1)));
    assert(seq![segs[k]].skip(1) =~= Seq::<(char, char)>::empty());
    assert(expansion(seq![segs[k]]) =~= seg_chars(segs[k]));
    assert(segs =~= segs.take(k + 1) + segs.skip(k + 1));
    lemma_expansion_split(segs.take(k + 1), segs.skip(k + 1));
}

/// The predefined mapping for printable ASCII: one range from space to
/// delete, with the question mark's slot standing in for unmapped
/// characters.
pub fn ascii() -> (r: StrGlyphMapping)
    ensures
        r.spec_data() == "\0\u{20}\u{7f}"@,
        r.spec_replacement() == '?' as int - ' ' as int,
{
    StrGlyphMapping::new("\0\u{20}\u{7f}", '?' as usize - ' ' as usize)
}

impl Clone for StrGlyphMapping {
    /// The copy decodes to the same segments and uses the same
    /// replacement slot.
    fn clone(&self) -> (r: Self)
        ensures
            r.spec_data() == self.spec_data(),
            r.spec_replacement() == self.spec_replacement(),
    {
        StrGlyphMapping { data: self.data.clone(), replacement_index: self.replacement_index }
    }
}

/// A character some segment claims sits in the expansion exactly at its
/// assigned slot, and no earlier slot holds it.
proof fn lemma_segments_index_covered(segs: Seq<(char, char)>, c: char, offset: int, repl: int)
    requires
        exists|i: int| 0 <= i < segs.len() && seg_covers(#[trigger] segs[i], c),
    ensures
        ({
            let k = segments_index(segs, c, offset, repl) - offset;
            &&& 0 <= k < expansion(segs).len()
            &&& expansion(segs)[k] == c
            &&& forall|j: int| 0 <= j < k ==> expansion(segs)[j] != c
        }),
    decreases segs.len(),
{
    lemma_char_bounds(c);
    let s0 = segs[0];
    lemma_char_bounds(s0.0);
    lemma_char_bounds(s0.1);
    lemma_char_range_props(s0.0 as int, s0.1 as int);
    lemma_char_range_membership(s0.0 as int, s0.1 as int, c);
    let e = expansion(segs);
    let head = seg_chars(s0);
    let rest = expansion(segs.skip(1));
    assert(e == head + rest);
    if seg_covers(s0, c) {
        let k = seg_rank(s0, c);
        assert(e[k] == head[k]);
        assert forall|j: int| 0 <= j < k implies e[j] != c by {
            assert(e[j] == head[j]);
        }
    } else {
        let i = choose|i: int| 0 <= i < segs.len() && seg_covers(#[trigger] segs[i], c);
        assert(i >= 1);
        assert(seg_covers(segs.skip(1)[i - 1], c));
        lemma_segments_index_covered(segs.skip(1), c, offset + seg_len(s0), repl);
        let k1 = segments_index(segs.skip(1), c, offset + seg_len(s0), repl) - (offset + seg_len(
            s0,
        ));
        let k = segments_index(segs, c, offset, repl) - offset;
        assert(k == seg_len(s0) + k1);
        assert(head.len() == seg_len(s0));
        assert(e[k] == rest[k1]);
        assert forall|j: int| 0 <= j < k implies e[j] != c by {
            if j < seg_len(s0) {
                assert(e[j] == head[j]);
                assert(!head.contains(c));
            } else {
                assert(e[j] == rest[j - seg_len(s0)]);
            }
        }
    }
}

/// A character no segment claims is assigned the replacement slot and is
/// absent from the expansion.
proof fn lemma_segments_index_unclaimed(segs: Seq<(char, char)>, c: char, offset: int, repl: int)
    requires
        forall|i: int| 0 <= i < segs.len() ==> !seg_covers(#[trigger] segs[i], c),
    ensures
        segments_index(segs, c, offset, repl) == repl,
        !expansion(segs).contains(c),
    decreases segs.len(),
{
    if segs.len() == 0 {
        assert(expansion(segs).len() == 0);
    } else {
        lemma_char_bounds(c);
        let s0 = segs[0];
        lemma_char_bounds(s0.0);
        lemma_char_bounds(s0.1);
        lemma_char_range_membership(s0.0 as int, s0.1 as int, c);
        assert(forall|i: int|
            0 <= i < segs.skip(1).len() ==> !seg_covers(#[trigger] segs.skip(1)[i], c));
        lemma_segments_index_unclaimed(segs.skip(1), c, offset + seg_len(s0), repl);
        let e = expansion(segs);
        let head = seg_chars(s0);
        let rest = expansion(segs.skip(1));
        assert(e == head + rest);
        assert forall|j: int| 0 <= j < e.len() implies e[j] != c by {
            if j < head.len() {
                assert(e[j] == head[j]);
                assert(!head.contains(c));
            } else {
                assert(e[j] == rest[j - head.len()]);
                assert(!rest.contains(c));
            }
        }
    }
}

/// Law: enumerating the claimed characters in slot order and asking for
/// each one's slot agree — the character at position `n` of the
/// enumeration is assigned slot `n` — provided the mapping claims no
/// character twice.
pub proof fn lemma_index_matches_enumeration(m: StrGlyphMapping, n: int)
    requires
        0 <= n < m.char_seq().len(),
        forall|i: int, j: int|
            0 <= i < j < m.char_seq().len() ==> m.char_seq()[i] != m.char_seq()[j],
    ensures
        m.spec_contains(m.char_seq()[n]),
        m.spec_index(m.char_seq()[n]) == n,
{
    let c = m.char_seq()[n];
    if !m.spec_contains(c) {
        assert(forall|i: int|
            0 <= i < m.segments().len() ==> !seg_covers(#[trigger] m.segments()[i], c));
        lemma_segments_index_unclaimed(m.segments(), c, 0, m.spec_replacement());
        assert(m.char_seq().contains(c));
        assert(false);
    }
    lemma_segments_index_covered(m.segments(), c, 0, m.spec_replacement());
    let k = m.spec_index(c);
    if k < n {
        assert(m.char_seq()[k] == m.char_seq()[n]);
        assert(false);
    }
    if n < k {
        assert(m.char_seq()[n] != c);
        assert(false);
    }
}

/// Law: a character the mapping does not claim is reported at the
/// replacement slot.
pub proof fn lemma_unclaimed_index(m: StrGlyphMapping, c: char)
    requires
        !m.spec_contains(c),
    ensures
        m.spec_index(c) == m.spec_replacement(),
{
    assert(forall|i: int|
        0 <= i < m.segments().len() ==> !seg_covers(#[trigger] m.segments()[i], c));
    lemma_segments_index_unclaimed(m.segments(), c, 0, m.spec_replacement());
}

/// Law: two mappings that claim the same characters in the same order and
/// share a replacement slot assign every character the same slot — no
/// matter how differently their strings encode the segments.
pub proof fn lemma_same_chars_same_index(m1: StrGlyphMapping, m2: StrGlyphMapping, c: char)
    requires
        m1.char_seq() == m2.char_seq(),
        m1.spec_replacement() == m2.spec_replacement(),
    ensures
        m1.spec_contains(c) == m2.spec_contains(c),
        m1.spec_index(c) == m2.spec_index(c),
{
    lemma_claimed_iff_in_chars(m1, c);
    lemma_claimed_iff_in_chars(m2, c);
    if m1.spec_contains(c) {
        lemma_segments_index_covered(m1.segments(), c, 0, m1.spec_replacement());
        lemma_segments_index_covered(m2.segments(), c, 0, m2.spec_replacement());
        let k1 = m1.spec_index(c);
        let k2 = m2.spec_index(c);
        if k1 < k2 {
            assert(m2.char_seq()[k1] != c);
            assert(false);
        }
        if k2 < k1 {
            assert(m1.char_seq()[k2] != c);
            assert(false);
        }
    } else {
        lemma_unclaimed_index(m1, c);
        lemma_unclaimed_index(m2, c);
    }
}

/// A slot the mapping reports is never negative, and is either a slot of
/// a claimed character or the replacement slot.
pub proof fn lemma_index_within_bound(m: StrGlyphMapping, c: char)
    ensures
        0 <= m.spec_index(c),
        m.spec_index(c) < m.char_seq().len() || m.spec_index(c) == m.spec_replacement(),
{
    if m.spec_contains(c) {
        lemma_segments_index_covered(m.segments(), c, 0, m.spec_replacement());
    } else {
        lemma_unclaimed_index(m, c);
    }
}

/// A mapping claims a character exactly when the character occurs in its
/// slot-order enumeration.
pub proof fn lemma_claimed_iff_in_chars(m: StrGlyphMapping, c: char)
    ensures
        m.spec_contains(c) == m.char_seq().contains(c),
{
    if m.spec_contains(c) {
        lemma_segments_index_covered(m.segments(), c, 0, m.spec_replacement());
        let k = m.spec_index(c);
        assert(m.char_seq()[k] == c);
        assert(m.char_seq().contains(c));
    } else {
        assert(forall|i: int|
            0 <= i < m.segments().len() ==> !seg_covers(#[trigger] m.segments()[i], c));
        lemma_segments_index_unclaimed(m.segments(), c, 0, m.spec_replacement());
    }
}

/// The breadth of a segment counted in raw code points, the surrogate gap
/// included.
pub open spec fn raw_seg_len(seg: (char, char)) -> int {
    seg.1 as int - seg.0 as int + 1
}

/// The total raw breadth of a sequence of segments.
pub open spec fn raw_len_sum(segs: Seq<(char, char)>) -> int
    decreases segs.len(),
{
    if segs.len() == 0 {
        0
    } else {
        raw_seg_len(segs[0]) + raw_len_sum(segs.skip(1))
    }
}

/// Raw breadths add over concatenation.
proof fn lemma_raw_sum_split(s1: Seq<(char, char)>, s2: Seq<(char, char)>)
    ensures
        raw_len_sum(s1 + s2) == raw_len_sum(s1) + raw_len_sum(s2),
    decreases s1.len(),
{
    if s1.len() == 0 {
        assert(s1 + s2 =~= s2);
    } else {
        assert((s1 + s2).skip(1) =~= s1.skip(1) + s2);
        lemma_raw_sum_split(s1.skip(1), s2);
        assert((s1 + s2)[0] == s1[0]);
    }
}

/// For segments whose ranges are not reversed, raw breadths are
/// non-negative.
proof fn lemma_raw_sum_nonneg(segs: Seq<(char, char)>)
    requires
        forall|j: int| 0 <= j < segs.len() ==> (#[trigger] segs[j]).0 as int <= segs[j].1 as int,
    ensures
        raw_len_sum(segs) >= 0,
    decreases segs.len(),
{
    if segs.len() > 0 {
        assert(segs[0].0 as int <= segs[0].1 as int);
        assert(forall|j: int|
            0 <= j < segs.skip(1).len() ==> (#[trigger] segs.skip(1)[j]).0 as int
                <= segs.skip(1)[j].1 as int);
        lemma_raw_sum_nonneg(segs.skip(1));
    }
}

/// Glyph mapping decoded from a mapping string.
#[derive(Debug)]
pub struct StrGlyphMapping {
    data: String,
    replacement_index: usize,
}

impl StrGlyphMapping {
    /// The characters of the mapping string.
    pub closed spec fn spec_data(self) -> Seq<char> {
        self.data@
    }

    /// The slot reported for characters the mapping does not claim.
    pub closed spec fn spec_replacement(self) -> int {
        self.replacement_index as int
    }

    /// The segments the mapping string encodes.
    pub open spec fn segments(self) -> Seq<(char, char)> {
        segments_of(self.spec_data())
    }

    /// Every character the mapping claims, in slot order.
    pub open spec fn char_seq(self) -> Seq<char> {
        expansion(self.segments())
    }

    /// Does some segment of the mapping claim `c`?
    pub open spec fn spec_contains(self, c: char) -> bool {
        exists|i: int| 0 <= i < self.segments().len() && seg_covers(self.segments()[i], c)
    }

    /// The slot the mapping assigns to `c`.
    pub open spec fn spec_index(self, c: char) -> int {
        segments_index(self.segments(), c, 0, self.spec_replacement())
    }

    /// Creates a new glyph mapping.
    pub fn new(data: &str, replacement_index: usize) -> (r: Self)
        ensures
            r.spec_data() == data@,
            r.spec_replacement() == replacement_index as int,
    {
        Self { data: data.to_owned(), replacement_index }
    }

    /// Decodes the mapping string into its segments.
    fn parse_segments(&self) -> (r: Vec<(char, char)>)
        ensures
            r@ == self.segments(),
    {
        let s: &str = self.data.as_str();
        let n = s.unicode_len();
        let mut segs: Vec<(char, char)> = Vec::new();
        let mut i: usize = 0;
        proof {
            assert(s@.skip(0) =~= s@);
            assert(segs@ + segments_of(s@) =~= segments_of(s@));
        }
        while i < n
            invariant
                n == s@.len(),
                s@ == self.spec_data(),
                0 <= i <= n,
                self.segments() == segs@ + segments_of(s@.skip(i as int)),
            decreases n - i,
        {
            let c0 = s.get_char(i);
            if c0 == '\0' {
                if n - i > 2 {
                    let a = s.get_char(i + 1);
                    let b = s.get_char(i + 2);
                    proof {
                        let rest = s@.skip(i as int);
                        assert(rest.len() >= 3);
                        assert(rest[0] == '\0');
                        assert(rest[1] == a);
                        assert(rest[2] == b);
                        assert(rest.skip(3) =~= s@.skip(i + 3));
                        assert(segs@ + segments_of(rest) =~= (segs@ + seq![(a, b)])
                            + segments_of(s@.skip(i + 3)));
                    }
                    segs.push((a, b));
                    i = i + 3;
                } else {
                    proof {
                        let rest = s@.skip(i as int);
                        assert(rest[0] == '\0');
                        assert(rest.len() < 3);
                        assert(segments_of(rest) =~= Seq::<(char, char)>::empty());
                        assert(segs@ + segments_of(rest) =~= segs@ + segments_of(
                            s@.skip(n as int)));
                    }
                    i = n;
                }
            } else {
                proof {
                    let rest = s@.skip(i as int);
                    assert(rest[0] == c0);
                    assert(rest.skip(1) =~= s@.skip(i + 1));
                    assert(segs@ + segments_of(rest) =~= (segs@ + seq![(c0, c0)]) + segments_of(
                        s@.skip(i + 1)));
                }
                segs.push((c0, c0));
                i = i + 1;
            }
        }
        proof {
            assert(s@.skip(n as int) =~= Seq::<char>::empty());
            assert(segs@ + segments_of(s@.skip(n as int)) =~= segs@);
        }
        segs
    }

    /// Returns whether the mapping claims the given char.
    pub fn contains(&self, c: char) -> (r: bool)
        ensures
            r == self.spec_contains(c),
    {
        let segs = self.parse_segments();
        let m = segs.len();
        let mut k: usize = 0;
        while k < m
            invariant
                segs@ == self.segments(),
                m == segs@.len(),
                0 <= k <= m,
                forall|j: int| 0 <= j < k ==> !seg_covers(self.segments()[j], c),
            decreases m - k,

        {
            let seg = segs[k];
            proof {
                lemma_char_bounds(seg.0);
                lemma_char_bounds(seg.1);
                lemma_char_bounds(c);
            }
            if seg.0 as u32 <= c as u32 && c as u32 <= seg.1 as u32 {
                assert(seg_covers(self.segments()[k as int], c));
                return true;
            }
            k = k + 1;
        }
        false
    }

    /// The glyph slot assigned to `c`: slots are handed out contiguously
    /// to the segments in declaration order, and the replacement slot is
    /// returned when no segment claims `c`.
    pub fn index(&self, c: char) -> (r: usize)
        requires
            self.char_seq().len() <= usize::MAX as int,
        ensures
            r as int == self.spec_index(c),
    {
        proof {
            lemma_char_bounds(c);
        }
        let segs = self.parse_segments();
        let m = segs.len();
        let ghost gsegs = self.segments();
        let ghost repl = self.spec_replacement();
        let mut offset: usize = 0;
        let mut k: usize = 0;
        proof {
            assert(gsegs.skip(0) =~= gsegs);
            assert(gsegs.take(0) =~= Seq::<(char, char)>::empty());
        }
        while k < m
            invariant
                segs@ == gsegs,
                gsegs == self.segments(),
                repl == self.spec_replacement(),
                m == gsegs.len(),
                0 <= k <= m,
                offset as int == expansion(gsegs.take(k as int)).len(),
                expansion(gsegs.take(k as int)).len() <= self.char_seq().len(),
                self.char_seq().len() <= usize::MAX as int,
                self.spec_index(c) == segments_index(
                    gsegs.skip(k as int),
                    c,
                    offset as int,
                    repl,
                ),
            decreases m - k,
        {
            let seg = segs[k];
            let a32 = seg.0 as u32;
            let b32 = seg.1 as u32;
            let c32 = c as u32;
            proof {
                lemma_char_bounds(seg.0);
                lemma_char_bounds(seg.1);
                lemma_char_range_props(seg.0 as int, seg.1 as int);
                lemma_expansion_take(gsegs, k as int);
                assert(gsegs.skip(k as int)[0] == gsegs[k as int]);
                assert(gsegs.skip(k as int).skip(1) =~= gsegs.skip(k as int + 1));
            }
            if a32 <= c32 && c32 <= b32 {
                assert(seg_covers(gsegs[k as int], c));
                let rank: u32 = c32 - a32 - (if a32 < 0xD800 && c32 > 0xDFFF {
                    0x800
                } else {
                    0
                });
                proof {
                    assert(rank as int == seg_rank(gsegs[k as int], c));
                    assert(seg_rank(gsegs[k as int], c) < seg_len(gsegs[k as int]));
                    assert(offset + seg_len(gsegs[k as int]) <= self.char_seq().len());
                }
                return offset + rank as usize;
            }
            assert(!seg_covers(gsegs[k as int], c));
            let len_seg: u32 = if a32 > b32 {
                0
            } else {
                b32 - a32 + 1 - (if a32 < 0xD800 && b32 > 0xDFFF {
                    0x800
                } else {
                    0
                })
            };
            proof {
                assert(len_seg as int == seg_len(gsegs[k as int]));
                assert(offset + seg_len(gsegs[k as int]) <= self.char_seq().len());
            }
            offset = offset + len_seg as usize;
            k = k + 1;
        }
        proof {
            assert(gsegs.skip(m as int) =~= Seq::<(char, char)>::empty());
        }
        self.replacement_index
    }

    /// Every character the mapping claims, in slot order: each segment
    /// contributes the characters of its range in code-point order.
    pub fn chars(&self) -> (r: Vec<char>)
        requires
            self.char_seq().len() <= usize::MAX as int,
        ensures
            r@ == self.char_seq(),
    {
        let segs = self.parse_segments();
        let m = segs.len();
        let ghost gsegs = self.segments();
        let mut r: Vec<char> = Vec::new();
        let mut k: usize = 0;
        proof {
            assert(gsegs.take(0) =~= Seq::<(char, char)>::empty());
            assert(r@ =~= expansion(gsegs.take(0)));
        }
        while k < m
            invariant
                segs@ == gsegs,
                gsegs == self.segments(),
                m == gsegs.len(),
                0 <= k <= m,
                r@ == expansion(gsegs.take(k as int)),
                expansion(gsegs.take(k as int)).len() <= self.char_seq().len(),
                self.char_seq().len() <= usize::MAX as int,
            decreases m - k,
        {
            let seg = segs[k];
            let a32 = seg.0 as u32;
            let b32 = seg.1 as u32;
            proof {
                lemma_char_bounds(seg.0);
                lemma_char_bounds(seg.1);
                lemma_char_range_props(seg.0 as int, seg.1 as int);
                lemma_expansion_take(gsegs, k as int);
            }
            let count: u32 = if a32 > b32 {
                0
            } else {
                b32 - a32 + 1 - (if a32 < 0xD800 && b32 > 0xDFFF {
                    0x800
                } else {
                    0
                })
            };
            let ghost rng = seg_chars(gsegs[k as int]);
            assert(count as int == rng.len());
            let mut t: u32 = 0;
            proof {
                assert(rng.take(0) =~= Seq::<char>::empty());
                assert(r@ + rng.take(0) =~= r@);
            }
            let ghost r0 = r@;
            while t < count
                invariant
                    0 <= t <= count,
                    count <= 0x110000,
                    count as int == rng.len(),
                    rng == seg_chars(gsegs[k as int]),
                    a32 as int == gsegs[k as int].0 as int,
                    0 <= k < gsegs.len(),
                    gsegs == self.segments(),
                    forall|j: int|
                        0 <= j < rng.len() ==> {
                            &&& (#[trigger] rng[j]) as int == range_value_at(a32 as int, j)
                            &&& is_scalar(range_value_at(a32 as int, j))
                        },
                    is_scalar(a32 as int),
                    r@ == r0 + rng.take(t as int),
                    r0.len() + rng.len() <= usize::MAX as int,
                decreases count - t,
            {
                let x: u32 = if a32 + t <= 0xD7FF || a32 >= 0xE000 {
                    a32 + t
                } else {
                    a32 + t + 0x800
                };
                assert(x as int == range_value_at(a32 as int, t as int));
                proof {
                    assert(rng[t as int] as int == range_value_at(a32 as int, t as int));
                    assert(is_scalar(x as int));
                }
                let ch = char::from_u32(x).unwrap();
                proof {
                    assert(ch as int == x as int);
                    assert(rng[t as int] as int == x as int);
                    lemma_char_eq_from_int(ch, rng[t as int]);
                    assert(rng.take(t as int + 1) =~= rng.take(t as int).push(ch));
                }
                r.push(ch);
                t = t + 1;
                proof {
                    lemma_char_bounds(gsegs[k as int].1);
                    lemma_char_range_props(gsegs[k as int].0 as int, gsegs[k as int].1 as int);
                }
            }
            proof {
                assert(rng.take(count as int) =~= rng);
                assert(r@ =~= expansion(gsegs.take(k as int + 1)));
            }
            k = k + 1;
        }
        proof {
            assert(gsegs.take(m as int) =~= gsegs);
        }
        r
    }

    /// The character ranges of the mapping, each with the first glyph slot
    /// of its block. Blocks are counted in raw code points, exactly as the
    /// slots are handed out; a reversed range (start above end) is not
    /// meaningful here.
    pub fn ranges(&self) -> (r: Vec<(usize, char, char)>)
        requires
            forall|j: int|
                0 <= j < self.segments().len() ==> (#[trigger] self.segments()[j]).0 as int
                    <= self.segments()[j].1 as int,
            raw_len_sum(self.segments()) <= usize::MAX as int,
        ensures
            r@.len() == self.segments().len(),
            forall|j: int|
                0 <= j < r@.len() ==> {
                    &&& (#[trigger] r@[j]).0 as int == raw_len_sum(self.segments().take(j))
                    &&& r@[j].1 == self.segments()[j].0
                    &&& r@[j].2 == self.segments()[j].1
                },
    {
        let segs = self.parse_segments();
        let m = segs.len();
        let ghost gsegs = self.segments();
        let mut r: Vec<(usize, char, char)> = Vec::new();
        let mut offset: usize = 0;
        let mut k: usize = 0;
        proof {
            assert(gsegs.take(0) =~= Seq::<(char, char)>::empty());
        }
        while k < m
            invariant
                segs@ == gsegs,
                gsegs == self.segments(),
                m == gsegs.len(),
                0 <= k <= m,
                r@.len() == k,
                offset as int == raw_len_sum(gsegs.take(k as int)),
                raw_len_sum(gsegs) <= usize::MAX as int,
                forall|j: int|
                    0 <= j < gsegs.len() ==> (#[trigger] gsegs[j]).0 as int <= gsegs[j].1 as int,
                forall|j: int|
                    0 <= j < k ==> {
                        &&& (#[trigger] r@[j]).0 as int == raw_len_sum(gsegs.take(j))
                        &&& r@[j].1 == gsegs[j].0
                        &&& r@[j].2 == gsegs[j].1
                    },
            decreases m - k,
        {
            let seg = segs[k];
            proof {
                lemma_char_bounds(seg.0);
                lemma_char_bounds(seg.1);
                assert(gsegs.take(k as int + 1) =~= gsegs.take(k as int) + seq![gsegs[k as int]]);
                lemma_raw_sum_split(gsegs.take(k as int), seq![gsegs[k as int]]);
                assert(seq![gsegs[k as int]].skip(1) =~= Seq::<(char, char)>::empty());
                assert(raw_len_sum(Seq::<(char, char)>::empty()) == 0);
                assert(raw_len_sum(seq![gsegs[k as int]]) == raw_seg_len(gsegs[k as int]));
                assert(gsegs =~= gsegs.take(k as int + 1) + gsegs.skip(k as int + 1));
                lemma_raw_sum_split(gsegs.take(k as int + 1), gsegs.skip(k as int + 1));
                assert(forall|j: int|
                    0 <= j < gsegs.skip(k as int + 1).len() ==> (#[trigger] gsegs.skip(
                        k as int + 1,
                    )[j]).0 as int <= gsegs.skip(k as int + 1)[j].1 as int);
                lemma_raw_sum_nonneg(gsegs.skip(k as int + 1));
            }
            r.push((offset, seg.0, seg.1));
            let width: usize = seg.1 as usize - seg.0 as usize + 1;
            offset = offset + width;
            k = k + 1;
            proof {
                assert forall|j: int| 0 <= j < k implies {
                    &&& (#[trigger] r@[j]).0 as int == raw_len_sum(gsegs.take(j))
                    &&& r@[j].1 == gsegs[j].0
                    &&& r@[j].2 == gsegs[j].1
                } by {
                    if j < k - 1 {
                        assert(r@[j] == r@.take(k - 1)[j]);
                    }
                }
            }
        }
        r
    }
}

} // verus!


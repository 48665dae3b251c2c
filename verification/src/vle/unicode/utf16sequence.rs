//! The UTF-16 validator: byte-order-mark sniffing, the grammar of code
//! units and surrogate pairs, the incremental sequence state machine, and
//! the lemmas that tie the machine to the grammar.

use vstd::prelude::*;

use crate::vle::unicode::Endianness;
use crate::vle::unicode::is_text;
use crate::vle::unicode::is_text_value;

verus! {

/// The value of one code unit read from two bytes in the given order.
pub open spec fn unit_val(b0: u8, b1: u8, e: Endianness) -> int {
    match e {
        Endianness::BigEndian => b0 * 0x100 + b1,
        Endianness::LittleEndian => b1 * 0x100 + b0,
    }
}

pub open spec fn is_high_surrogate(u: int) -> bool {
    0xD800 <= u && u <= 0xDBFF
}

pub open spec fn is_low_surrogate(u: int) -> bool {
    0xDC00 <= u && u <= 0xDFFF
}

/// The scalar value a surrogate pair decodes to.
pub open spec fn pair_value(h: int, l: int) -> int {
    (h - 0xD800) * 0x400 + (l - 0xDC00) + 0x10000
}

/// The byte order declared by a leading byte-order mark, if any.
pub open spec fn bom_of(b0: u8, b1: u8) -> Option<Endianness> {
    if b0 == 0xFE && b1 == 0xFF {
        Some(Endianness::BigEndian)
    } else if b0 == 0xFF && b1 == 0xFE {
        Some(Endianness::LittleEndian)
    } else {
        None
    }
}

/// The code units of a byte stream under a fixed byte order; a trailing
/// lone byte contributes no unit.
pub open spec fn utf16_units(s: Seq<u8>, e: Endianness) -> Seq<int> {
    Seq::new(s.len() / 2, |k: int| unit_val(s[2 * k], s[2 * k + 1], e))
}

/// The unit stream parses completely: every high surrogate is followed by
/// a low surrogate, and every lone unit is an acceptable text value that
/// is not an orphaned low surrogate.
pub open spec fn units_ok(us: Seq<int>) -> bool
    decreases us.len(),
{
    if us.len() == 0 {
        true
    } else if is_high_surrogate(us[0]) {
        us.len() >= 2 && is_low_surrogate(us[1]) && units_ok(us.skip(2))
    } else {
        !is_low_surrogate(us[0]) && is_text_value(us[0]) && units_ok(us.skip(1))
    }
}

/// The unit stream parses up to a possibly pending high surrogate.
pub open spec fn units_prefix_ok(us: Seq<int>) -> bool
    decreases us.len(),
{
    if us.len() == 0 {
        true
    } else if is_high_surrogate(us[0]) {
        us.len() == 1 || (is_low_surrogate(us[1]) && units_prefix_ok(us.skip(2)))
    } else {
        !is_low_surrogate(us[0]) && is_text_value(us[0]) && units_prefix_ok(us.skip(1))
    }
}

/// The whole stream is well-formed UTF-16: it opens with a byte-order
/// mark, and the units after it parse completely.
pub open spec fn utf16_ok(s: Seq<u8>) -> bool {
    &&& s.len() >= 2
    &&& (bom_of(s[0], s[1]) matches Some(e) && units_ok(utf16_units(s, e).skip(1)))
}

/// The incremental validator has not yet been falsified on this prefix.
pub open spec fn utf16_prefix_ok(s: Seq<u8>) -> bool {
    if s.len() < 2 {
        true
    } else {
        bom_of(s[0], s[1]) matches Some(e) && units_prefix_ok(utf16_units(s, e).skip(1))
    }
}

/// Prepending a completely parsed unit stream changes neither parse
/// judgement on the remainder.
proof fn lemma_units_concat(q: Seq<int>, r: Seq<int>)
    requires
        units_ok(q),
    ensures
        units_ok(q + r) == units_ok(r),
        units_prefix_ok(q + r) == units_prefix_ok(r),
    decreases q.len(),
{
    if q.len() == 0 {
        assert(q + r =~= r);
    } else {
        let t = q + r;
        if is_high_surrogate(q[0]) {
            assert(t.skip(2) =~= q.skip(2) + r);
            lemma_units_concat(q.skip(2), r);
        } else {
            assert(t.skip(1) =~= q.skip(1) + r);
            lemma_units_concat(q.skip(1), r);
        }
    }
}

/// A unit parse that is still alive stays alive on every shorter prefix.
proof fn lemma_units_restrict(us: Seq<int>, k: int)
    requires
        units_prefix_ok(us),
        0 <= k <= us.len(),
    ensures
        units_prefix_ok(us.take(k)),
    decreases us.len(),
{
    if k == 0 {
        assert(us.take(0) =~= Seq::<int>::empty());
    } else {
        let t = us.take(k);
        assert(t[0] == us[0]);
        assert(k >= 2 ==> t[1] == us[1]);
        if is_high_surrogate(us[0]) {
            if k >= 2 {
                lemma_units_restrict(us.skip(2), k - 2);
                assert(t.skip(2) =~= us.skip(2).take(k - 2));
            }
        } else {
            lemma_units_restrict(us.skip(1), k - 1);
            assert(t.skip(1) =~= us.skip(1).take(k - 1));
        }
    }
}

/// A complete unit parse is in particular a live one.
proof fn lemma_units_ok_prefix(us: Seq<int>)
    requires
        units_ok(us),
    ensures
        units_prefix_ok(us),
    decreases us.len(),
{
    if us.len() > 0 {
        if is_high_surrogate(us[0]) {
            lemma_units_ok_prefix(us.skip(2));
        } else {
            lemma_units_ok_prefix(us.skip(1));
        }
    }
}

/// Appending one full pair of bytes appends one unit.
proof fn lemma_units_push(p: Seq<u8>, e: Endianness, b0: u8, b1: u8)
    requires
        p.len() % 2 == 0,
    ensures
        utf16_units(p.push(b0).push(b1), e) == utf16_units(p, e).push(unit_val(b0, b1, e)),
{
    let p2 = p.push(b0).push(b1);
    let left = utf16_units(p2, e);
    let right = utf16_units(p, e).push(unit_val(b0, b1, e));
    assert(left.len() == right.len());
    assert forall|k: int| 0 <= k < left.len() implies left[k] == right[k] by {
        if k < p.len() / 2 {
            assert(p2[2 * k] == p[2 * k]);
            assert(p2[2 * k + 1] == p[2 * k + 1]);
        } else {
            assert(2 * k == p.len());
            assert(p2[2 * k] == b0);
            assert(p2[2 * k + 1] == b1);
        }
    }
    assert(left =~= right);
}

/// The units of an even-length prefix are a prefix of the units.
proof fn lemma_units_take(s: Seq<u8>, e: Endianness, k: int)
    requires
        0 <= 2 * k <= s.len(),
    ensures
        utf16_units(s.take(2 * k), e) == utf16_units(s, e).take(k),
{
    let left = utf16_units(s.take(2 * k), e);
    let right = utf16_units(s, e).take(k);
    assert(left.len() == right.len());
    assert forall|j: int| 0 <= j < left.len() implies left[j] == right[j] by {
        assert(s.take(2 * k)[2 * j] == s[2 * j]);
        assert(s.take(2 * k)[2 * j + 1] == s[2 * j + 1]);
    }
    assert(left =~= right);
}

/// Once the incremental parse of an even prefix has failed, no extension
/// of the stream is well-formed UTF-16.
pub proof fn lemma_utf16_not_ok(s: Seq<u8>, i: int)
    requires
        0 <= i <= s.len(),
        i % 2 == 0,
        !utf16_prefix_ok(s.take(i)),
    ensures
        !utf16_ok(s),
{
    if utf16_ok(s) {
        let e = bom_of(s[0], s[1])->0;
        let us = utf16_units(s, e).skip(1);
        lemma_units_ok_prefix(us);
        if i >= 2 {
            let t = s.take(i);
            assert(t[0] == s[0]);
            assert(t[1] == s[1]);
            lemma_units_take(s, e, i / 2);
            assert(utf16_units(t, e).skip(1) =~= us.take(i / 2 - 1));
            lemma_units_restrict(us, i / 2 - 1);
        }
    }
}

/// A complete unit parse that ends in a surrogate pair no longer parses
/// once its final low surrogate is removed: the high surrogate is left
/// pending.
proof fn lemma_units_drop_low(us: Seq<int>)
    requires
        units_ok(us),
        us.len() >= 2,
        is_high_surrogate(us[us.len() - 2]),
    ensures
        !units_ok(us.take(us.len() - 1)),
    decreases us.len(),
{
    let t = us.take(us.len() - 1);
    if us.len() == 2 {
        assert(t.len() == 1);
        assert(t[0] == us[0]);
    } else {
        if is_high_surrogate(us[0]) {
            assert(is_low_surrogate(us[1]));
            assert(us.len() >= 4) by {
                if us.len() == 3 {
                    assert(is_high_surrogate(us[1]));
                }
            }
            lemma_units_drop_low(us.skip(2));
            assert(us.skip(2)[us.len() - 4] == us[us.len() - 2]);
            assert(t.skip(2) =~= us.skip(2).take(us.len() - 3));
            assert(t[0] == us[0] && t[1] == us[1]);
        } else {
            lemma_units_drop_low(us.skip(1));
            assert(us.skip(1)[us.len() - 3] == us[us.len() - 2]);
            assert(t.skip(1) =~= us.skip(1).take(us.len() - 2));
            assert(t[0] == us[0]);
        }
    }
}

/// Removing the trailing low surrogate of a well-formed UTF-16 stream
/// that ends in a surrogate pair leaves that pair's high surrogate
/// pending, so the truncated stream is no longer well-formed UTF-16.
pub proof fn lemma_utf16_truncated_pair(s: Seq<u8>, e: Endianness)
    requires
        utf16_ok(s),
        bom_of(s[0], s[1]) == Some(e),
        s.len() % 2 == 0,
        s.len() >= 6,
        is_high_surrogate(unit_val(s[s.len() - 4], s[s.len() - 3], e)),
    ensures
        !utf16_ok(s.take(s.len() - 2)),
{
    let t = s.take(s.len() - 2);
    let us = utf16_units(s, e).skip(1);
    assert(t[0] == s[0]);
    assert(t[1] == s[1]);
    lemma_units_take(s, e, (s.len() - 2) as int / 2);
    assert(utf16_units(t, e).skip(1) =~= us.take(us.len() - 1));
    assert(us[us.len() - 2] == utf16_units(s, e)[us.len() - 1]);
    assert(unit_val(s[2 * (us.len() - 1)], s[2 * (us.len() - 1) + 1], e) == unit_val(
        s[s.len() - 4],
        s[s.len() - 3],
        e,
    ));
    lemma_units_drop_low(us);
}

/// The decoded form of one complete unit or pair: a basic-plane unit
/// carries its own value, a surrogate pair carries the supplementary
/// scalar it denotes.
#[derive(Clone, Copy, Debug, PartialEq, Eq, Structural)]
pub enum Utf16Type {
    Surrogate(u32),
    Bmp(u16),
}

/// The incremental UTF-16 validator for one unit or surrogate pair, tied
/// to the byte order fixed for the stream.
#[derive(Clone, Copy)]
pub struct Utf16Sequence {
    high: u16,
    low: u16,
    surrogate: bool,
    low_set: bool,
    endianness: Endianness,
}

impl Utf16Sequence {
    /// The first unit of the run.
    pub closed spec fn first_unit(&self) -> int {
        self.high as int
    }

    /// The second unit of the run, meaningful once a low surrogate has
    /// been taken.
    pub closed spec fn second_unit(&self) -> int {
        self.low as int
    }

    pub closed spec fn spec_is_surrogate(&self) -> bool {
        self.surrogate
    }

    pub closed spec fn spec_complete(&self) -> bool {
        !self.surrogate || self.low_set
    }

    pub closed spec fn spec_endianness(&self) -> Endianness {
        self.endianness
    }

    pub closed spec fn well_formed(&self) -> bool {
        &&& self.surrogate == is_high_surrogate(self.high as int)
        &&& self.low_set ==> self.surrogate && is_low_surrogate(self.low as int)
    }

    /// Reads one code unit from two bytes in the given order.
    pub fn bytes_to_u16(bytes: [u8; 2], endianness: Endianness) -> (r: u16)
        ensures
            r as int == unit_val(bytes[0], bytes[1], endianness),
    {
        match endianness {
            Endianness::BigEndian => (bytes[0] as u16) * 0x100 + (bytes[1] as u16),
            Endianness::LittleEndian => (bytes[1] as u16) * 0x100 + (bytes[0] as u16),
        }
    }

    /// Starts a run from one unit: a high surrogate opens a pair awaiting
    /// its low half, anything else is a complete one-unit run.
    pub fn new(bytes: [u8; 2], endianness: Endianness) -> (r: Self)
        ensures
            r.well_formed(),
            r.spec_endianness() == endianness,
            r.first_unit() == unit_val(bytes[0], bytes[1], endianness),
            r.spec_is_surrogate() == is_high_surrogate(unit_val(bytes[0], bytes[1], endianness)),
            r.spec_complete() == !is_high_surrogate(unit_val(bytes[0], bytes[1], endianness)),
    {
        let unit = Self::bytes_to_u16(bytes, endianness);
        let surrogate = 0xD800 <= unit && unit <= 0xDBFF;
        Self { high: unit, low: 0, surrogate, low_set: false, endianness }
    }

    pub fn is_complete(&self) -> (r: bool)
        ensures
            r == self.spec_complete(),
    {
        !self.surrogate || self.low_set
    }

    /// Whether the run is a surrogate pair.
    pub fn is_surrogate(&self) -> (r: bool)
        ensures
            r == self.spec_is_surrogate(),
    {
        self.surrogate
    }

    /// Offers the next unit as the low half of the pending pair; a unit
    /// outside the low-surrogate range falsifies the run.
    pub fn add_point(&mut self, point: [u8; 2]) -> (r: bool)
        requires
            old(self).well_formed(),
            !old(self).spec_complete(),
        ensures
            r == is_low_surrogate(unit_val(point[0], point[1], old(self).spec_endianness())),
            r ==> {
                &&& final(self).well_formed()
                &&& final(self).spec_complete()
                &&& final(self).spec_is_surrogate()
                &&& final(self).first_unit() == old(self).first_unit()
                &&& final(self).second_unit() == unit_val(
                    point[0],
                    point[1],
                    old(self).spec_endianness(),
                )
                &&& final(self).spec_endianness() == old(self).spec_endianness()
            },
            !r ==> *final(self) == *old(self),
    {
        let unit = Self::bytes_to_u16(point, self.endianness);
        if !(0xDC00 <= unit && unit <= 0xDFFF) {
            return false;
        }
        self.low = unit;
        self.low_set = true;
        true
    }

    /// Decodes the complete run.
    pub fn get_codepoint(&self) -> (r: Utf16Type)
        requires
            self.well_formed(),
            self.spec_complete(),
        ensures
            match r {
                Utf16Type::Bmp(v) => !self.spec_is_surrogate() && v as int == self.first_unit(),
                Utf16Type::Surrogate(c) => self.spec_is_surrogate() && c as int == pair_value(
                    self.first_unit(),
                    self.second_unit(),
                ),
            },
    {
        if !self.surrogate {
            Utf16Type::Bmp(self.high)
        } else {
            let h = self.high as u32;
            let l = self.low as u32;
            Utf16Type::Surrogate((h - 0xD800) * 0x400 + (l - 0xDC00) + 0x10000)
        }
    }

    /// Checks the complete run: a lone unit must not be an orphaned low
    /// surrogate and must be acceptable text; a completed pair always
    /// denotes a supplementary scalar and is always valid.
    pub fn is_valid(&self) -> (r: bool)
        requires
            self.well_formed(),
            self.spec_complete(),
        ensures
            r == if self.spec_is_surrogate() {
                true
            } else {
                !is_low_surrogate(self.first_unit()) && is_text_value(self.first_unit())
            },
    {
        match self.get_codepoint() {
            Utf16Type::Bmp(v) => (v <= 0xD7FF || 0xE000 <= v) && is_text(v as u32),
            Utf16Type::Surrogate(c) => (0x10000 <= c && c <= 0x10FFFF) && is_text(c),
        }
    }
}

/// The shared validator contract, over already-decoded code units; the
/// byte-level interface with its fixed byte order is the inherent one.
impl crate::vle::VariableLengthEncoding for Utf16Sequence {
    type Point = u16;

    open spec fn wf(&self) -> bool {
        self.well_formed()
    }

    open spec fn complete(&self) -> bool {
        self.spec_complete()
    }

    fn build(input: u16) -> (r: Option<Self>)
        ensures
            r is Some,
            r matches Some(v) ==> {
                &&& v.well_formed()
                &&& v.first_unit() == input as int
                &&& v.spec_is_surrogate() == is_high_surrogate(input as int)
                &&& v.spec_complete() == !is_high_surrogate(input as int)
            },
    {
        let surrogate = 0xD800 <= input && input <= 0xDBFF;
        Some(
            Self {
                high: input,
                low: 0,
                surrogate,
                low_set: false,
                endianness: Endianness::BigEndian,
            },
        )
    }

    fn is_complete(&self) -> (r: bool) {
        Utf16Sequence::is_complete(self)
    }

    // An impl-level contract cannot stand here: the generated ensures
    // check resolves `add_point` to the inherent byte-level method of
    // another signature. Verified callers use the inherent interface,
    // which fixes this behaviour exactly.
    fn add_point(&mut self, point: u16) -> (r: bool) {
        if !(0xDC00 <= point && point <= 0xDFFF) {
            return false;
        }
        self.low = point;
        self.low_set = true;
        true
    }

    fn is_valid(&self) -> (r: bool)
        ensures
            r == if self.spec_is_surrogate() {
                true
            } else {
                !is_low_surrogate(self.first_unit()) && is_text_value(self.first_unit())
            },
    {
        Utf16Sequence::is_valid(self)
    }
}

/// The relation between the orchestrator's UTF-16 state and the even
/// prefix of the bytes consumed so far: while the hypothesis is alive,
/// the stream opened with a byte-order mark that fixed the byte order,
/// the complete units so far parse up to an optional pending high
/// surrogate held by the live sequence, and once dead, the incremental
/// parse of the prefix has failed.
pub open spec fn utf16_machine_inv(
    alive: bool,
    e_opt: Option<Endianness>,
    st: Option<Utf16Sequence>,
    p: Seq<u8>,
) -> bool {
    &&& !alive ==> !utf16_prefix_ok(p)
    &&& alive ==> if p.len() == 0 {
        e_opt is None && st is None
    } else {
        &&& p.len() >= 2
        &&& (bom_of(p[0], p[1]) matches Some(ev) && {
            let us = utf16_units(p, ev).skip(1);
            &&& e_opt == Some(ev)
            &&& match st {
                None => units_ok(us),
                Some(u) => {
                    &&& u.well_formed()
                    &&& !u.spec_complete()
                    &&& u.spec_endianness() == ev
                    &&& us.len() >= 1
                    &&& us[us.len() - 1] == u.first_unit()
                    &&& is_high_surrogate(u.first_unit())
                    &&& units_ok(us.take(us.len() - 1))
                },
            }
        })
    }
}

/// Feeds one complete pair of bytes to the UTF-16 hypothesis, as the
/// orchestrator does: the first pair fixes the byte order from the
/// byte-order mark, later pairs build units and surrogate pairs.
pub fn utf16_advance(
    alive: bool,
    endianness: Option<Endianness>,
    st: Option<Utf16Sequence>,
    b0: u8,
    b1: u8,
    Ghost(p): Ghost<Seq<u8>>,
) -> (r: (bool, Option<Endianness>, Option<Utf16Sequence>))
    requires
        p.len() % 2 == 0,
        utf16_machine_inv(alive, endianness, st, p),
    ensures
        utf16_machine_inv(r.0, r.1, r.2, p.push(b0).push(b1)),
{
    let ghost p2 = p.push(b0).push(b1);
    if !alive {
        proof {
            if utf16_prefix_ok(p2) {
                lemma_utf16_prefix_restrict(p2, p.len() as int);
                assert(p2.take(p.len() as int) =~= p);
            }
        }
        return (false, endianness, st);
    }
    match endianness {
        None => {
            let be = Utf16Sequence::bytes_to_u16([b0, b1], Endianness::BigEndian);
            let le = Utf16Sequence::bytes_to_u16([b0, b1], Endianness::LittleEndian);
            proof {
                assert(p.len() == 0);
                assert(p2 =~= seq![b0, b1]);
                assert(utf16_units(p2, Endianness::BigEndian).skip(1) =~= Seq::<int>::empty());
                assert(utf16_units(p2, Endianness::LittleEndian).skip(1) =~= Seq::<int>::empty());
            }
            if be == 0xFEFF {
                (true, Some(Endianness::BigEndian), None)
            } else if le == 0xFEFF {
                (true, Some(Endianness::LittleEndian), None)
            } else {
                (false, None, None)
            }
        },
        Some(ev) => {
            let ghost uval = unit_val(b0, b1, ev);
            let ghost us = utf16_units(p, ev).skip(1);
            let ghost us2 = utf16_units(p2, ev).skip(1);
            proof {
                lemma_units_push(p, ev, b0, b1);
                assert(us2 =~= us.push(uval));
                assert(p2[0] == p[0]);
                assert(p2[1] == p[1]);
            }
            match st {
                None => {
                    proof {
                        assert(us.push(uval) =~= us + seq![uval]);
                        lemma_units_concat(us, seq![uval]);
                        assert(seq![uval].skip(1) =~= Seq::<int>::empty());
                    }
                    let sq = Utf16Sequence::new([b0, b1], ev);
                    if sq.is_complete() {
                        if sq.is_valid() {
                            proof {
                                assert(units_ok(Seq::<int>::empty()));
                                assert(units_ok(seq![uval]));
                            }
                            (true, Some(ev), None)
                        } else {
                            proof {
                                assert(!units_prefix_ok(seq![uval]));
                            }
                            (false, Some(ev), None)
                        }
                    } else {
                        proof {
                            assert(us2.take(us2.len() - 1) =~= us);
                        }
                        (true, Some(ev), Some(sq))
                    }
                },
                Some(mut sq) => {
                    let ghost h = sq.first_unit();
                    let ghost v = us.take(us.len() - 1);
                    proof {
                        assert(us2 =~= v + seq![h, uval]);
                        lemma_units_concat(v, seq![h, uval]);
                        assert(seq![h, uval].skip(2) =~= Seq::<int>::empty());
                    }
                    if sq.add_point([b0, b1]) {
                        if sq.is_valid() {
                            proof {
                                assert(units_ok(Seq::<int>::empty()));
                                assert(units_ok(seq![h, uval]));
                            }
                            (true, Some(ev), None)
                        } else {
                            (false, Some(ev), None)
                        }
                    } else {
                        proof {
                            assert(!units_prefix_ok(seq![h, uval]));
                        }
                        (false, Some(ev), Some(sq))
                    }
                },
            }
        },
    }
}

/// A live parse stays live on every shorter even prefix.
proof fn lemma_utf16_prefix_restrict(s: Seq<u8>, i: int)
    requires
        utf16_prefix_ok(s),
        0 <= i <= s.len(),
        i % 2 == 0,
    ensures
        utf16_prefix_ok(s.take(i)),
{
    if i >= 2 {
        let t = s.take(i);
        assert(t[0] == s[0]);
        assert(t[1] == s[1]);
        let e = bom_of(s[0], s[1])->0;
        lemma_units_take(s, e, i / 2);
        assert(utf16_units(t, e).skip(1) =~= utf16_units(s, e).skip(1).take(i / 2 - 1));
        lemma_units_restrict(utf16_units(s, e).skip(1), i / 2 - 1);
    }
}

/// At end of stream the UTF-16 hypothesis stands exactly when the whole
/// stream is well-formed UTF-16: a pending high surrogate is a truncated
/// pair, and a stream too short for a byte-order mark was never UTF-16.
pub proof fn lemma_utf16_final(
    alive: bool,
    e_opt: Option<Endianness>,
    st: Option<Utf16Sequence>,
    s: Seq<u8>,
)
    requires
        utf16_machine_inv(alive, e_opt, st, s.take(2 * ((s.len() as int) / 2))),
    ensures
        (alive && st is None && s.len() >= 2) == utf16_ok(s),
{
    let k = (s.len() as int) / 2;
    let p = s.take(2 * k);
    if s.len() < 2 {
        assert(!utf16_ok(s));
    } else {
        assert(p[0] == s[0]);
        assert(p[1] == s[1]);
        if alive {
            let ev = bom_of(p[0], p[1])->0;
            lemma_units_take(s, ev, k);
            assert(utf16_units(s, ev).take(k) =~= utf16_units(s, ev));
            let us = utf16_units(s, ev).skip(1);
            assert(utf16_units(p, ev).skip(1) =~= us);
            match st {
                None => {},
                Some(u) => {
                    lemma_units_concat(us.take(us.len() - 1), seq![u.first_unit()]);
                    assert(us.take(us.len() - 1) + seq![u.first_unit()] =~= us);
                    assert(!units_ok(seq![u.first_unit()]));
                },
            }
        } else {
            if utf16_ok(s) {
                let ev = bom_of(s[0], s[1])->0;
                let us = utf16_units(s, ev).skip(1);
                lemma_units_ok_prefix(us);
                lemma_units_take(s, ev, k);
                assert(utf16_units(p, ev).skip(1) =~= us.take(k - 1));
                lemma_units_restrict(us, k - 1);
            }
        }
    }
}

} // verus!

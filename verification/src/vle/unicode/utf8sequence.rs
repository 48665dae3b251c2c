//! The UTF-8 validator: grammar of runs, the incremental sequence state
//! machine, and the lemmas that tie the machine to the grammar.

use vstd::prelude::*;

use crate::vle::unicode::is_text_value;
use crate::vle::unicode::is_text;

verus! {

/// A UTF-8 continuation byte.
pub open spec fn utf8_cont(b: u8) -> bool {
    0x80 <= b && b <= 0xBF
}

/// The run length announced by a lead byte, or 0 if the byte can never
/// begin a run (a continuation byte, 0xC0, 0xC1, or anything above 0xF4).
pub open spec fn utf8_len_of(b: u8) -> int {
    if b <= 0x7F {
        1
    } else if 0xC2 <= b && b <= 0xDF {
        2
    } else if 0xE0 <= b && b <= 0xEF {
        3
    } else if 0xF0 <= b && b <= 0xF4 {
        4
    } else {
        0
    }
}

/// The value a complete run decodes to: the lead byte with its
/// leading-ones pattern removed, then six more bits per continuation byte.
pub open spec fn utf8_decode(s: Seq<u8>) -> int {
    if s.len() == 1 {
        s[0] as int
    } else if s.len() == 2 {
        (s[0] - 0xC0) * 0x40 + (s[1] - 0x80)
    } else if s.len() == 3 {
        (s[0] - 0xE0) * 0x1000 + (s[1] - 0x80) * 0x40 + (s[2] - 0x80)
    } else if s.len() == 4 {
        (s[0] - 0xF0) * 0x40000 + (s[1] - 0x80) * 0x1000 + (s[2] - 0x80) * 0x40 + (s[3] - 0x80)
    } else {
        0
    }
}

/// A complete, valid UTF-8 run: its length matches the lead byte, its
/// continuation bytes are in range, its decoded value is not overlong for
/// the run length, and the value is acceptable as text.
pub open spec fn utf8_run_valid(s: Seq<u8>) -> bool {
    let n = utf8_len_of(s[0]);
    &&& s.len() == n
    &&& 1 <= n
    &&& (n >= 2 ==> utf8_cont(s[1]))
    &&& (n >= 3 ==> utf8_cont(s[2]))
    &&& (n >= 4 ==> utf8_cont(s[3]))
    &&& (n == 2 ==> 0x80 <= utf8_decode(s))
    &&& (n == 3 ==> 0x800 <= utf8_decode(s))
    &&& (n == 4 ==> 0x10000 <= utf8_decode(s) && utf8_decode(s) <= 0x10FFFF)
    &&& is_text_value(utf8_decode(s))
}

/// The stream parses completely into valid runs.
pub open spec fn utf8_ok(s: Seq<u8>) -> bool
    decreases s.len(),
{
    if s.len() == 0 {
        true
    } else {
        let n = utf8_len_of(s[0]);
        &&& 1 <= n <= s.len()
        &&& utf8_run_valid(s.take(n))
        &&& utf8_ok(s.skip(n))
    }
}

/// The stream parses into valid runs up to a possibly unfinished final
/// run; this is exactly the condition under which the incremental
/// validator has not yet been falsified.
pub open spec fn utf8_prefix_ok(s: Seq<u8>) -> bool
    decreases s.len(),
{
    if s.len() == 0 {
        true
    } else {
        let n = utf8_len_of(s[0]);
        &&& 1 <= n
        &&& if s.len() < n {
            (s.len() >= 2 ==> utf8_cont(s[1])) && (s.len() >= 3 ==> utf8_cont(s[2]))
        } else {
            utf8_run_valid(s.take(n)) && utf8_prefix_ok(s.skip(n))
        }
    }
}

/// Prepending a completely parsed stream changes neither parse judgement
/// on the remainder.
proof fn lemma_utf8_concat(q: Seq<u8>, r: Seq<u8>)
    requires
        utf8_ok(q),
    ensures
        utf8_ok(q + r) == utf8_ok(r),
        utf8_prefix_ok(q + r) == utf8_prefix_ok(r),
    decreases q.len(),
{
    if q.len() == 0 {
        assert(q + r =~= r);
    } else {
        let n = utf8_len_of(q[0]);
        let t = q + r;
        assert(t.take(n) =~= q.take(n));
        assert(t.skip(n) =~= q.skip(n) + r);
        lemma_utf8_concat(q.skip(n), r);
    }
}

/// A parse that is still alive stays alive on every shorter prefix.
proof fn lemma_utf8_prefix_restrict(s: Seq<u8>, i: int)
    requires
        utf8_prefix_ok(s),
        0 <= i <= s.len(),
    ensures
        utf8_prefix_ok(s.take(i)),
    decreases s.len(),
{
    if i == 0 {
        assert(s.take(0) =~= Seq::<u8>::empty());
    } else {
        let n = utf8_len_of(s[0]);
        if s.len() < n {
            assert(s.take(i)[0] == s[0]);
        } else if i < n {
            assert(s.take(i)[0] == s[0]);
            assert(utf8_run_valid(s.take(n)));
            assert(i >= 2 ==> s.take(i)[1] == s.take(n)[1]);
            assert(i >= 3 ==> s.take(i)[2] == s.take(n)[2]);
        } else {
            lemma_utf8_prefix_restrict(s.skip(n), i - n);
            assert(s.take(i).take(n) =~= s.take(n));
            assert(s.take(i).skip(n) =~= s.skip(n).take(i - n));
        }
    }
}

/// A complete parse is in particular a live parse.
proof fn lemma_utf8_ok_prefix(s: Seq<u8>)
    requires
        utf8_ok(s),
    ensures
        utf8_prefix_ok(s),
    decreases s.len(),
{
    if s.len() > 0 {
        let n = utf8_len_of(s[0]);
        lemma_utf8_ok_prefix(s.skip(n));
    }
}

/// Once the incremental parse of a prefix has failed, no extension of the
/// stream parses completely.
pub proof fn lemma_utf8_not_ok(s: Seq<u8>, i: int)
    requires
        0 <= i <= s.len(),
        !utf8_prefix_ok(s.take(i)),
    ensures
        !utf8_ok(s),
{
    if utf8_ok(s) {
        lemma_utf8_ok_prefix(s);
        lemma_utf8_prefix_restrict(s, i);
    }
}

/// The incremental UTF-8 validator: the bytes of the current run and the
/// run length its lead byte announced.
#[derive(Clone, Copy)]
pub struct Utf8Sequence {
    b0: u8,
    b1: u8,
    b2: u8,
    b3: u8,
    full_length: u8,
    current_length: u8,
}

impl Utf8Sequence {
    /// The bytes of the run accumulated so far.
    pub closed spec fn bytes(&self) -> Seq<u8> {
        seq![self.b0, self.b1, self.b2, self.b3].take(self.current_length as int)
    }

    /// The state is a well-formed prefix of a run whose length the lead
    /// byte announced; byte slots not yet consumed still hold zero.
    pub closed spec fn well_formed(&self) -> bool {
        &&& 1 <= self.current_length <= self.full_length
        &&& self.full_length as int == utf8_len_of(self.b0)
        &&& (self.current_length >= 2 ==> utf8_cont(self.b1))
        &&& (self.current_length >= 3 ==> utf8_cont(self.b2))
        &&& (self.current_length >= 4 ==> utf8_cont(self.b3))
        &&& (self.current_length < 2 ==> self.b1 == 0)
        &&& (self.current_length < 3 ==> self.b2 == 0)
        &&& (self.current_length < 4 ==> self.b3 == 0)
    }

    pub closed spec fn spec_complete(&self) -> bool {
        self.current_length == self.full_length
    }

    /// The announced run length, as a specification value.
    pub closed spec fn spec_full(&self) -> int {
        self.full_length as int
    }

    /// The number of bytes consumed so far, as a specification value.
    pub closed spec fn spec_cur(&self) -> int {
        self.current_length as int
    }

    /// A byte that can never start a run: 0xC0 and 0xC1 only begin
    /// overlong forms, and 0xF5 and above only out-of-range ones.
    pub fn is_invalid(byte: u8) -> (r: bool)
        ensures
            r == (byte == 0xC0 || byte == 0xC1 || byte >= 0xF5),
    {
        byte == 0xC0 || byte == 0xC1 || byte >= 0xF5
    }

    /// Starts a run from a lead byte, already complete for the ASCII
    /// range; yields nothing for a byte that cannot begin a run.
    pub fn build(byte: u8) -> (r: Option<Self>)
        ensures
            match r {
                None => utf8_len_of(byte) == 0,
                Some(s) => {
                    &&& utf8_len_of(byte) >= 1
                    &&& s.well_formed()
                    &&& s.bytes() == seq![byte]
                    &&& s.spec_cur() == 1
                    &&& s.spec_full() == utf8_len_of(byte)
                    &&& s.spec_complete() == (utf8_len_of(byte) == 1)
                },
            },
    {
        if (0x80 <= byte && byte <= 0xBF) || Self::is_invalid(byte) {
            return None;
        }
        let full_length: u8 = if byte <= 0x7F {
            1
        } else if byte <= 0xDF {
            2
        } else if byte <= 0xEF {
            3
        } else {
            4
        };
        let s = Self { b0: byte, b1: 0, b2: 0, b3: 0, full_length, current_length: 1 };
        proof {
            assert(s.bytes() =~= seq![byte]);
        }
        Some(s)
    }

    pub fn is_complete(&self) -> (r: bool)
        ensures
            r == self.spec_complete(),
    {
        self.current_length == self.full_length
    }

    /// Appends one continuation byte; a byte outside the continuation
    /// range falsifies the run and leaves the state untouched.
    pub fn add_point(&mut self, point: u8) -> (r: bool)
        requires
            old(self).well_formed(),
            !old(self).spec_complete(),
        ensures
            r == utf8_cont(point),
            r ==> {
                &&& final(self).well_formed()
                &&& final(self).bytes() == old(self).bytes().push(point)
                &&& final(self).spec_cur() == old(self).spec_cur() + 1
                &&& final(self).spec_full() == old(self).spec_full()
                &&& final(self).spec_complete() == (old(self).spec_cur() + 1 == old(
                    self,
                ).spec_full())
            },
            !r ==> *final(self) == *old(self),
    {
        if !(0x80 <= point && point <= 0xBF) {
            return false;
        }
        if self.current_length == 1 {
            self.b1 = point;
        } else if self.current_length == 2 {
            self.b2 = point;
        } else {
            self.b3 = point;
        }
        self.current_length = self.current_length + 1;
        proof {
            assert(self.bytes() =~= old(self).bytes().push(point));
        }
        true
    }

    /// The total number of bytes the run will occupy once complete; it
    /// is fixed by the lead byte at `build` and never changes.
    pub fn full_len(&self) -> (r: usize)
        ensures
            r as int == self.spec_full(),
            self.well_formed() ==> 1 <= r && r <= 4,
    {
        self.full_length as usize
    }

    /// The number of bytes consumed so far.
    pub fn current_len(&self) -> (r: usize)
        ensures
            r as int == self.spec_cur(),
            self.well_formed() ==> {
                &&& 1 <= r
                &&& r as int <= self.spec_full()
                &&& r as int == self.bytes().len()
            },
    {
        self.current_length as usize
    }

    /// The byte at `index`, if the index lies within the announced run
    /// length; positions not yet consumed read as zero.
    pub fn get(&self, index: usize) -> (r: Option<u8>)
        requires
            self.well_formed(),
        ensures
            r is Some <==> (index as int) < self.spec_full(),
            (index as int) < self.spec_cur() ==> r == Some(self.bytes()[index as int]),
            index == 0 ==> r == Some(self.bytes()[0]),
            self.spec_cur() <= index as int && (index as int) < self.spec_full() ==> r == Some(
                0u8,
            ),
    {
        if index >= self.full_len() {
            return None;
        }
        if index == 0 {
            Some(self.b0)
        } else if index == 1 {
            Some(self.b1)
        } else if index == 2 {
            Some(self.b2)
        } else {
            Some(self.b3)
        }
    }

    /// Decodes the complete run.
    pub fn get_codepoint(&self) -> (r: u32)
        requires
            self.well_formed(),
            self.spec_complete(),
        ensures
            r as int == utf8_decode(self.bytes()),
    {
        if self.full_length == 1 {
            self.b0 as u32
        } else if self.full_length == 2 {
            (self.b0 as u32 - 0xC0) * 0x40 + (self.b1 as u32 - 0x80)
        } else if self.full_length == 3 {
            (self.b0 as u32 - 0xE0) * 0x1000 + (self.b1 as u32 - 0x80) * 0x40 + (self.b2 as u32
                - 0x80)
        } else {
            (self.b0 as u32 - 0xF0) * 0x40000 + (self.b1 as u32 - 0x80) * 0x1000 + (self.b2 as u32
                - 0x80) * 0x40 + (self.b3 as u32 - 0x80)
        }
    }

    /// Checks the complete run against the overlong and range rules and
    /// the text-acceptability filter.
    pub fn is_valid(&self) -> (r: bool)
        requires
            self.well_formed(),
            self.spec_complete(),
        ensures
            r == utf8_run_valid(self.bytes()),
    {
        let codepoint = self.get_codepoint();
        let range_ok: bool = if self.full_length == 1 {
            codepoint <= 0x7F
        } else if self.full_length == 2 {
            0x80 <= codepoint && codepoint <= 0x7FF
        } else if self.full_length == 3 {
            0x800 <= codepoint && codepoint <= 0xFFFF
        } else {
            0x10000 <= codepoint && codepoint <= 0x10FFFF
        };
        range_ok && is_text(codepoint)
    }
}

impl crate::vle::VariableLengthEncoding for Utf8Sequence {
    type Point = u8;

    open spec fn wf(&self) -> bool {
        self.well_formed()
    }

    open spec fn complete(&self) -> bool {
        self.spec_complete()
    }

    fn build(input: u8) -> (r: Option<Self>)
        ensures
            (r is None) == (utf8_len_of(input) == 0),
            r matches Some(s) ==> {
                &&& s.well_formed()
                &&& s.bytes() == seq![input]
                &&& s.spec_cur() == 1
                &&& s.spec_full() == utf8_len_of(input)
                &&& s.spec_complete() == (utf8_len_of(input) == 1)
            },
    {
        Utf8Sequence::build(input)
    }

    fn is_complete(&self) -> (r: bool) {
        Utf8Sequence::is_complete(self)
    }

    fn add_point(&mut self, point: u8) -> (r: bool)
        ensures
            r == utf8_cont(point),
            r ==> {
                &&& final(self).bytes() == old(self).bytes().push(point)
                &&& final(self).spec_cur() == old(self).spec_cur() + 1
                &&& final(self).spec_full() == old(self).spec_full()
                &&& final(self).spec_complete() == (old(self).spec_cur() + 1 == old(
                    self,
                ).spec_full())
            },
            !r ==> *final(self) == *old(self),
    {
        Utf8Sequence::add_point(self, point)
    }

    fn is_valid(&self) -> (r: bool)
        ensures
            r == utf8_run_valid(self.bytes()),
    {
        Utf8Sequence::is_valid(self)
    }
}

/// The relation between the orchestrator's UTF-8 state and the bytes
/// consumed so far: while the hypothesis is alive, everything before the
/// live run parses completely and the live run matches the stream's tail;
/// once dead, the incremental parse of the prefix has failed.
pub open spec fn utf8_machine_inv(alive: bool, st: Option<Utf8Sequence>, p: Seq<u8>) -> bool {
    &&& !alive ==> !utf8_prefix_ok(p)
    &&& alive ==> match st {
        None => utf8_ok(p),
        Some(u) => {
            &&& u.well_formed()
            &&& !u.spec_complete()
            &&& u.bytes().len() <= p.len()
            &&& p.skip(p.len() - u.bytes().len()) == u.bytes()
            &&& utf8_ok(p.take(p.len() - u.bytes().len()))
        },
    }
}

/// Feeds one byte to the UTF-8 hypothesis, as the orchestrator does:
/// build a run if none is live, extend the live one otherwise, and check
/// validity the moment a run completes.
pub fn utf8_advance(alive: bool, st: Option<Utf8Sequence>, b: u8, Ghost(p): Ghost<Seq<u8>>) -> (r:
    (bool, Option<Utf8Sequence>))
    requires
        utf8_machine_inv(alive, st, p),
    ensures
        utf8_machine_inv(r.0, r.1, p.push(b)),
{
    if !alive {
        proof {
            if utf8_prefix_ok(p.push(b)) {
                lemma_utf8_prefix_restrict(p.push(b), p.len() as int);
                assert(p.push(b).take(p.len() as int) =~= p);
            }
        }
        return (false, st);
    }
    proof {
        assert(p.push(b) =~= p + seq![b]);
    }
    match st {
        None => {
            proof {
                lemma_utf8_concat(p, seq![b]);
                assert(seq![b].take(1) =~= seq![b]);
                assert(seq![b].skip(1) =~= Seq::<u8>::empty());
            }
            match Utf8Sequence::build(b) {
                None => (false, None),
                Some(u) => {
                    if u.is_complete() {
                        if u.is_valid() {
                            proof {
                                assert(utf8_ok(Seq::<u8>::empty()));
                                assert(utf8_ok(seq![b]));
                            }
                            (true, None)
                        } else {
                            (false, None)
                        }
                    } else {
                        proof {
                            assert(p.push(b).skip(p.len() as int) =~= seq![b]);
                            assert(p.push(b).take(p.len() as int) =~= p);
                        }
                        (true, Some(u))
                    }
                },
            }
        },
        Some(mut u) => {
            let ghost q_len = p.len() - u.bytes().len();
            let ghost ub = u.bytes();
            proof {
                assert(p.push(b) =~= p.take(q_len) + ub.push(b));
                lemma_utf8_concat(p.take(q_len), ub.push(b));
            }
            if u.add_point(b) {
                if u.is_complete() {
                    proof {
                        assert(ub.push(b).take(ub.len() as int + 1) =~= ub.push(b));
                        assert(ub.push(b).skip(ub.len() as int + 1) =~= Seq::<u8>::empty());
                    }
                    if u.is_valid() {
                        proof {
                            assert(utf8_ok(Seq::<u8>::empty()));
                            assert(utf8_ok(ub.push(b)));
                        }
                        (true, None)
                    } else {
                        (false, Some(u))
                    }
                } else {
                    proof {
                        assert(p.push(b).skip(q_len) =~= ub.push(b));
                        assert(p.push(b).take(q_len) =~= p.take(q_len));
                    }
                    (true, Some(u))
                }
            } else {
                proof {
                    let v = ub.push(b);
                    let n = utf8_len_of(v[0]);
                    if v.len() < n {
                        assert(!(v.len() >= 2 ==> utf8_cont(v[1])) || !(v.len() >= 3 ==> utf8_cont(
                            v[2],
                        ))) by {
                            assert(v[v.len() - 1] == b);
                        }
                    } else {
                        assert(v.take(n) =~= v);
                        assert(!utf8_run_valid(v)) by {
                            assert(v[v.len() - 1] == b);
                        }
                    }
                }
                (false, Some(u))
            }
        },
    }
}

/// At end of stream the UTF-8 hypothesis stands exactly when the whole
/// stream parses completely: a live unfinished run is a truncated run.
pub proof fn lemma_utf8_final(alive: bool, st: Option<Utf8Sequence>, s: Seq<u8>)
    requires
        utf8_machine_inv(alive, st, s),
    ensures
        (alive && st is None) == utf8_ok(s),
{
    if alive {
        match st {
            None => {},
            Some(u) => {
                let q_len = s.len() - u.bytes().len();
                lemma_utf8_concat(s.take(q_len as int), u.bytes());
                assert(s.take(q_len as int) + u.bytes() =~= s);
            },
        }
    } else {
        assert(s.take(s.len() as int) =~= s);
        lemma_utf8_not_ok(s, s.len() as int);
    }
}

} // verus!

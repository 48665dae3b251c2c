//! The GB 18030 validator: grammar of one-, two- and four-byte runs, the
//! incremental sequence state machine, and the lemmas that tie the machine
//! to the grammar.

use vstd::prelude::*;

use crate::ascii_byte;

verus! {

/// A byte that completes a one-byte run on its own.
pub open spec fn gb_single(b: u8) -> bool {
    b <= 0x7F
}

/// A lead byte of a multi-byte run.
pub open spec fn gb_lead(b: u8) -> bool {
    0x81 <= b && b <= 0xFE
}

/// A lead byte whose run may extend to four bytes.
pub open spec fn gb_lead4(b: u8) -> bool {
    (0x81 <= b && b <= 0x84) || (0x90 <= b && b <= 0xE3)
}

/// A second byte that completes a two-byte run.
pub open spec fn gb_two_trail(b: u8) -> bool {
    0x40 <= b && b <= 0xFE && b != 0x7F
}

/// A decimal digit byte, used in the second and fourth position of a
/// four-byte run.
pub open spec fn gb_digit(b: u8) -> bool {
    0x30 <= b && b <= 0x39
}

/// A third byte of a four-byte run.
pub open spec fn gb_four_third(b: u8) -> bool {
    0x81 <= b && b <= 0xFE
}

/// A complete, valid run: a single byte must itself be ASCII text, while
/// well-formed two- and four-byte runs are accepted outright.
pub open spec fn gb_run_valid(s: Seq<u8>) -> bool {
    if s.len() == 1 {
        gb_single(s[0]) && ascii_byte(s[0])
    } else if s.len() == 2 {
        gb_lead(s[0]) && gb_two_trail(s[1])
    } else if s.len() == 4 {
        gb_lead(s[0]) && gb_lead4(s[0]) && gb_digit(s[1]) && gb_four_third(s[2]) && gb_digit(s[3])
    } else {
        false
    }
}

/// A proper prefix of a multi-byte run.
pub open spec fn gb_partial_run(s: Seq<u8>) -> bool {
    if s.len() == 1 {
        gb_lead(s[0])
    } else if s.len() == 2 {
        gb_lead(s[0]) && gb_lead4(s[0]) && gb_digit(s[1])
    } else if s.len() == 3 {
        gb_lead(s[0]) && gb_lead4(s[0]) && gb_digit(s[1]) && gb_four_third(s[2])
    } else {
        false
    }
}

/// The stream parses completely into valid runs.
pub open spec fn gb_ok(s: Seq<u8>) -> bool
    decreases s.len(),
{
    if s.len() == 0 {
        true
    } else if gb_single(s[0]) {
        ascii_byte(s[0]) && gb_ok(s.skip(1))
    } else if gb_lead(s[0]) {
        &&& s.len() >= 2
        &&& if gb_two_trail(s[1]) {
            gb_ok(s.skip(2))
        } else if gb_lead4(s[0]) && gb_digit(s[1]) {
            s.len() >= 4 && gb_four_third(s[2]) && gb_digit(s[3]) && gb_ok(s.skip(4))
        } else {
            false
        }
    } else {
        false
    }
}

/// The stream parses into valid runs up to a possibly unfinished final
/// run; this is exactly the condition under which the incremental
/// validator has not yet been falsified.
pub open spec fn gb_prefix_ok(s: Seq<u8>) -> bool
    decreases s.len(),
{
    if s.len() == 0 {
        true
    } else if gb_single(s[0]) {
        ascii_byte(s[0]) && gb_prefix_ok(s.skip(1))
    } else if gb_lead(s[0]) {
        if s.len() == 1 {
            true
        } else if gb_two_trail(s[1]) {
            gb_prefix_ok(s.skip(2))
        } else if gb_lead4(s[0]) && gb_digit(s[1]) {
            if s.len() == 2 {
                true
            } else if gb_four_third(s[2]) {
                s.len() == 3 || (gb_digit(s[3]) && gb_prefix_ok(s.skip(4)))
            } else {
                false
            }
        } else {
            false
        }
    } else {
        false
    }
}

/// Prepending a completely parsed stream changes neither parse judgement
/// on the remainder.
proof fn lemma_gb_concat(q: Seq<u8>, r: Seq<u8>)
    requires
        gb_ok(q),
    ensures
        gb_ok(q + r) == gb_ok(r),
        gb_prefix_ok(q + r) == gb_prefix_ok(r),
    decreases q.len(),
{
    if q.len() == 0 {
        assert(q + r =~= r);
    } else {
        let t = q + r;
        if gb_single(q[0]) {
            assert(t.skip(1) =~= q.skip(1) + r);
            lemma_gb_concat(q.skip(1), r);
        } else if gb_two_trail(q[1]) {
            assert(t.skip(2) =~= q.skip(2) + r);
            lemma_gb_concat(q.skip(2), r);
        } else {
            assert(t.skip(4) =~= q.skip(4) + r);
            lemma_gb_concat(q.skip(4), r);
        }
    }
}

/// A parse that is still alive stays alive on every shorter prefix.
proof fn lemma_gb_prefix_restrict(s: Seq<u8>, i: int)
    requires
        gb_prefix_ok(s),
        0 <= i <= s.len(),
    ensures
        gb_prefix_ok(s.take(i)),
    decreases s.len(),
{
    if i == 0 {
        assert(s.take(0) =~= Seq::<u8>::empty());
    } else {
        let t = s.take(i);
        assert(t[0] == s[0]);
        assert(i >= 2 ==> t[1] == s[1]);
        assert(i >= 3 ==> t[2] == s[2]);
        assert(i >= 4 ==> t[3] == s[3]);
        if gb_single(s[0]) {
            lemma_gb_prefix_restrict(s.skip(1), i - 1);
            assert(t.skip(1) =~= s.skip(1).take(i - 1));
        } else if s.len() >= 2 && gb_two_trail(s[1]) {
            if i == 1 {
            } else {
                lemma_gb_prefix_restrict(s.skip(2), i - 2);
                assert(t.skip(2) =~= s.skip(2).take(i - 2));
            }
        } else if s.len() >= 4 && gb_lead(s[0]) && gb_lead4(s[0]) && gb_digit(s[1])
            && gb_four_third(s[2]) && gb_digit(s[3]) {
            if i >= 4 {
                lemma_gb_prefix_restrict(s.skip(4), i - 4);
                assert(t.skip(4) =~= s.skip(4).take(i - 4));
            }
        } else {
        }
    }
}

/// A complete parse is in particular a live parse.
proof fn lemma_gb_ok_prefix(s: Seq<u8>)
    requires
        gb_ok(s),
    ensures
        gb_prefix_ok(s),
    decreases s.len(),
{
    if s.len() > 0 {
        if gb_single(s[0]) {
            lemma_gb_ok_prefix(s.skip(1));
        } else if gb_two_trail(s[1]) {
            lemma_gb_ok_prefix(s.skip(2));
        } else {
            lemma_gb_ok_prefix(s.skip(4));
        }
    }
}

/// Once the incremental parse of a prefix has failed, no extension of the
/// stream parses completely.
pub proof fn lemma_gb_not_ok(s: Seq<u8>, i: int)
    requires
        0 <= i <= s.len(),
        !gb_prefix_ok(s.take(i)),
    ensures
        !gb_ok(s),
{
    if gb_ok(s) {
        lemma_gb_ok_prefix(s);
        lemma_gb_prefix_restrict(s, i);
    }
}

/// The incremental GB 18030 validator: the bytes of the current run and a
/// completion flag, since a run's final length is only known once its
/// second byte arrives.
#[derive(Clone, Copy)]
pub struct GbSequence {
    data0: u8,
    data1: u8,
    data2: u8,
    data3: u8,
    current_length: u8,
    is_complete: bool,
}

impl GbSequence {
    /// The bytes of the run accumulated so far.
    pub closed spec fn bytes(&self) -> Seq<u8> {
        seq![self.data0, self.data1, self.data2, self.data3].take(self.current_length as int)
    }

    pub closed spec fn spec_complete(&self) -> bool {
        self.is_complete
    }

    /// The state is either a complete well-shaped run or a proper prefix
    /// of a multi-byte run.
    pub closed spec fn well_formed(&self) -> bool {
        &&& 1 <= self.current_length <= 4
        &&& if self.is_complete {
            (self.current_length == 1 && gb_single(self.data0)) || (self.current_length == 2
                && gb_lead(self.data0) && gb_two_trail(self.data1)) || (self.current_length == 4
                && gb_run_valid(self.bytes()))
        } else {
            gb_partial_run(self.bytes())
        }
    }

    /// Whether the next byte may extend the partial run `t`.
    pub open spec fn can_extend(t: Seq<u8>, b: u8) -> bool {
        if t.len() == 1 {
            gb_two_trail(b) || (gb_lead4(t[0]) && gb_digit(b))
        } else if t.len() == 2 {
            gb_four_third(b)
        } else {
            gb_digit(b)
        }
    }

    /// Whether the byte `b` finishes the partial run `t`.
    pub open spec fn extend_completes(t: Seq<u8>, b: u8) -> bool {
        if t.len() == 1 {
            gb_two_trail(b)
        } else {
            t.len() == 3
        }
    }

    /// Starts a run from a lead byte, already complete for the
    /// single-byte range; 0x80 and 0xFF can never begin a run.
    pub fn build(byte: u8) -> (r: Option<Self>)
        ensures
            match r {
                None => byte == 0x80 || byte == 0xFF,
                Some(g) => {
                    &&& byte != 0x80 && byte != 0xFF
                    &&& g.well_formed()
                    &&& g.bytes() == seq![byte]
                    &&& g.spec_complete() == gb_single(byte)
                },
            },
    {
        if byte == 0x80 || byte == 0xFF {
            return None;
        }
        let is_complete = byte <= 0x7F;
        let g = Self { data0: byte, data1: 0, data2: 0, data3: 0, current_length: 1, is_complete };
        proof {
            assert(g.bytes() =~= seq![byte]);
        }
        Some(g)
    }

    pub fn is_complete(&self) -> (r: bool)
        ensures
            r == self.spec_complete(),
    {
        self.is_complete
    }

    /// Appends one byte to an incomplete run; a byte that fits no
    /// position of the grammar falsifies the run.
    pub fn add_codepoint(&mut self, codepoint: u8) -> (r: bool)
        requires
            old(self).well_formed(),
            !old(self).spec_complete(),
        ensures
            r == Self::can_extend(old(self).bytes(), codepoint),
            r ==> {
                &&& final(self).well_formed()
                &&& final(self).bytes() == old(self).bytes().push(codepoint)
                &&& final(self).spec_complete() == Self::extend_completes(
                    old(self).bytes(),
                    codepoint,
                )
            },
    {
        let ghost t = self.bytes();
        if self.current_length == 1 {
            self.data1 = codepoint;
        } else if self.current_length == 2 {
            self.data2 = codepoint;
        } else {
            self.data3 = codepoint;
        }
        self.current_length = self.current_length + 1;
        proof {
            assert(self.bytes() =~= t.push(codepoint));
        }
        if self.current_length == 2 {
            if 0x40 <= codepoint && codepoint <= 0xFE && codepoint != 0x7F {
                self.is_complete = true;
                proof {
                    assert(self.bytes() =~= t.push(codepoint));
                }
                true
            } else {
                (0x30 <= codepoint && codepoint <= 0x39) && {
                    let lead = self.data0;
                    (0x81 <= lead && lead <= 0x84) || (0x90 <= lead && lead <= 0xE3)
                }
            }
        } else if self.current_length == 3 {
            0x81 <= codepoint && codepoint <= 0xFE
        } else {
            self.is_complete = true;
            proof {
                assert(self.bytes() =~= t.push(codepoint));
            }
            0x30 <= codepoint && codepoint <= 0x39
        }
    }

    /// Checks the complete run: a one-byte run must be an ASCII text
    /// byte, while complete multi-byte runs are valid as they stand.
    pub fn is_valid(&self) -> (r: bool)
        requires
            self.well_formed(),
            self.spec_complete(),
        ensures
            r == gb_run_valid(self.bytes()),
    {
        if self.current_len() == 1 {
            let b = self.first_byte();
            (0x08 <= b && b <= 0x0D) || b == 0x1B || (0x20 <= b && b <= 0x7E)
        } else {
            true
        }
    }

    /// The number of bytes consumed so far.
    pub fn current_len(&self) -> (r: usize)
        requires
            self.well_formed(),
        ensures
            r as int == self.bytes().len(),
    {
        self.current_length as usize
    }

    /// The lead byte of the run.
    pub fn first_byte(&self) -> (r: u8)
        requires
            self.well_formed(),
        ensures
            r == self.bytes()[0],
    {
        self.data0
    }
}

impl crate::vle::VariableLengthEncoding for GbSequence {
    type Point = u8;

    open spec fn wf(&self) -> bool {
        self.well_formed()
    }

    open spec fn complete(&self) -> bool {
        self.spec_complete()
    }

    fn build(input: u8) -> (r: Option<Self>)
        ensures
            (r is None) == (input == 0x80 || input == 0xFF),
            r matches Some(g) ==> {
                &&& g.well_formed()
                &&& g.bytes() == seq![input]
                &&& g.spec_complete() == gb_single(input)
            },
    {
        GbSequence::build(input)
    }

    fn is_complete(&self) -> (r: bool) {
        GbSequence::is_complete(self)
    }

    fn add_point(&mut self, point: u8) -> (r: bool)
        ensures
            r == Self::can_extend(old(self).bytes(), point),
            r ==> {
                &&& final(self).bytes() == old(self).bytes().push(point)
                &&& final(self).spec_complete() == Self::extend_completes(old(self).bytes(), point)
            },
    {
        self.add_codepoint(point)
    }

    fn is_valid(&self) -> (r: bool)
        ensures
            r == gb_run_valid(self.bytes()),
    {
        GbSequence::is_valid(self)
    }
}

/// The relation between the orchestrator's GB 18030 state and the bytes
/// consumed so far: while the hypothesis is alive, everything before the
/// live run parses completely and the live run matches the stream's tail;
/// once dead, the incremental parse of the prefix has failed.
pub open spec fn gb_machine_inv(alive: bool, st: Option<GbSequence>, p: Seq<u8>) -> bool {
    &&& !alive ==> !gb_prefix_ok(p)
    &&& alive ==> match st {
        None => gb_ok(p),
        Some(g) => {
            &&& g.well_formed()
            &&& !g.spec_complete()
            &&& g.bytes().len() <= p.len()
            &&& p.skip(p.len() - g.bytes().len()) == g.bytes()
            &&& gb_ok(p.take(p.len() - g.bytes().len()))
        },
    }
}

/// Feeds one byte to the GB 18030 hypothesis, as the orchestrator does:
/// build a run if none is live, extend the live one otherwise, and check
/// validity the moment a run completes.
pub fn gb_advance(alive: bool, st: Option<GbSequence>, b: u8, Ghost(p): Ghost<Seq<u8>>) -> (r: (
    bool,
    Option<GbSequence>,
))
    requires
        gb_machine_inv(alive, st, p),
    ensures
        gb_machine_inv(r.0, r.1, p.push(b)),
{
    if !alive {
        proof {
            if gb_prefix_ok(p.push(b)) {
                lemma_gb_prefix_restrict(p.push(b), p.len() as int);
                assert(p.push(b).take(p.len() as int) =~= p);
            }
        }
        return (false, st);
    }
    proof {
        assert(p.push(b) =~= p + seq![b]);
    }
    match st {
        None => {
            proof {
                lemma_gb_concat(p, seq![b]);
                assert(seq![b].skip(1) =~= Seq::<u8>::empty());
            }
            match GbSequence::build(b) {
                None => (false, None),
                Some(g) => {
                    if g.is_complete() {
                        if g.is_valid() {
                            proof {
                                assert(gb_ok(Seq::<u8>::empty()));
                                assert(gb_ok(seq![b]));
                            }
                            (true, None)
                        } else {
                            (false, None)
                        }
                    } else {
                        proof {
                            assert(p.push(b).skip(p.len() as int) =~= seq![b]);
                            assert(p.push(b).take(p.len() as int) =~= p);
                        }
                        (true, Some(g))
                    }
                },
            }
        },
        Some(mut g) => {
            let ghost q_len = p.len() - g.bytes().len();
            let ghost gbytes = g.bytes();
            proof {
                assert(p.push(b) =~= p.take(q_len) + gbytes.push(b));
                lemma_gb_concat(p.take(q_len), gbytes.push(b));
            }
            if g.add_codepoint(b) {
                if g.is_complete() {
                    proof {
                        assert(gbytes.push(b).skip(gbytes.len() as int + 1) =~= Seq::<
                            u8,
                        >::empty());
                    }
                    if g.is_valid() {
                        proof {
                            assert(gb_ok(Seq::<u8>::empty()));
                            assert(gb_ok(gbytes.push(b)));
                        }
                        (true, None)
                    } else {
                        (false, Some(g))
                    }
                } else {
                    proof {
                        assert(p.push(b).skip(q_len) =~= gbytes.push(b));
                        assert(p.push(b).take(q_len) =~= p.take(q_len));
                    }
                    (true, Some(g))
                }
            } else {
                proof {
                    let v = gbytes.push(b);
                    assert(v[0] == gbytes[0]);
                    assert(v.len() >= 2 ==> v[1] == if gbytes.len() >= 2 {
                        gbytes[1]
                    } else {
                        b
                    });
                    assert(!gb_prefix_ok(v));
                }
                (false, Some(g))
            }
        },
    }
}

/// At end of stream the GB 18030 hypothesis stands exactly when the whole
/// stream parses completely: a live unfinished run is a truncated run.
pub proof fn lemma_gb_final(alive: bool, st: Option<GbSequence>, s: Seq<u8>)
    requires
        gb_machine_inv(alive, st, s),
    ensures
        (alive && st is None) == gb_ok(s),
{
    if alive {
        match st {
            None => {},
            Some(g) => {
                let q_len = s.len() - g.bytes().len();
                lemma_gb_concat(s.take(q_len as int), g.bytes());
                assert(s.take(q_len as int) + g.bytes() =~= s);
            },
        }
    } else {
        assert(s.take(s.len() as int) =~= s);
        lemma_gb_not_ok(s, s.len() as int);
    }
}

} // verus!

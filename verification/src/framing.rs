//! Message-boundary framing. A frame is a byte-stuffed record followed by a
//! terminator byte 0: inside the payload every 0 becomes the pair (1, 2) and
//! every 1 the pair (1, 3), so the terminator never occurs in a stuffed
//! payload and a receiver can split a byte stream into frames even when
//! reads return partial or concatenated data.
use vstd::prelude::*;

verus! {

/// The frame terminator.
pub open spec fn terminator() -> u8 {
    0u8
}

/// The stuffing of one payload byte.
pub open spec fn stuff_byte(x: u8) -> Seq<u8> {
    if x == 0u8 {
        seq![1u8, 2u8]
    } else if x == 1u8 {
        seq![1u8, 3u8]
    } else {
        seq![x]
    }
}

/// The stuffing of a whole payload: terminator-free.
pub open spec fn stuff(s: Seq<u8>) -> Seq<u8>
    decreases s.len(),
{
    if s.len() == 0 {
        Seq::empty()
    } else {
        stuff_byte(s[0]) + stuff(s.drop_first())
    }
}

/// The inverse of `stuff`: accepts exactly the stuffed payloads.
pub open spec fn unstuff(s: Seq<u8>) -> Option<Seq<u8>>
    decreases s.len(),
{
    if s.len() == 0 {
        Some(Seq::empty())
    } else if s[0] == 1u8 {
        if s.len() >= 2 && (s[1] == 2u8 || s[1] == 3u8) {
            match unstuff(s.subrange(2, s.len() as int)) {
                Some(r) => Some(
                    seq![
                        if s[1] == 2u8 {
                            0u8
                        } else {
                            1u8
                        },
                    ] + r,
                ),
                None => None,
            }
        } else {
            None
        }
    } else if s[0] == 0u8 {
        None
    } else {
        match unstuff(s.drop_first()) {
            Some(r) => Some(seq![s[0]] + r),
            None => None,
        }
    }
}

/// A stuffed payload never contains the terminator byte.
pub proof fn lemma_stuff_no_terminator(s: Seq<u8>)
    ensures
        forall|i: int| 0 <= i < stuff(s).len() ==> stuff(s)[i] != terminator(),
    decreases s.len(),
{
    if s.len() > 0 {
        lemma_stuff_no_terminator(s.drop_first());
        let head = stuff_byte(s[0]);
        assert forall|i: int| 0 <= i < stuff(s).len() implies stuff(s)[i] != terminator() by {
            if i >= head.len() {
                assert(stuff(s)[i] == stuff(s.drop_first())[i - head.len()]);
            }
        }
    }
}

/// Appending one byte extends the stuffing by that byte's pair or singleton.
proof fn lemma_stuff_push(s: Seq<u8>, x: u8)
    ensures
        stuff(s.push(x)) == stuff(s) + stuff_byte(x),
    decreases s.len(),
{
    if s.len() == 0 {
        assert(s.push(x).drop_first() =~= Seq::<u8>::empty());
        assert(stuff(Seq::<u8>::empty()) =~= Seq::<u8>::empty());
        assert(s.push(x).drop_first() == Seq::<u8>::empty());
        assert(stuff(s.push(x)) =~= stuff_byte(x));
        assert(stuff(s) + stuff_byte(x) =~= stuff_byte(x));
    } else {
        assert(s.push(x).drop_first() =~= s.drop_first().push(x));
        lemma_stuff_push(s.drop_first(), x);
        assert(stuff(s.push(x)) == stuff_byte(s[0]) + stuff(s.drop_first().push(x)));
        assert(stuff(s.push(x)) =~= stuff(s) + stuff_byte(x));
    }
}

/// Round trip, payload to stuffed bytes and back: unstuffing a stuffing
/// yields the original payload.
pub proof fn lemma_unstuff_stuff(s: Seq<u8>)
    ensures
        unstuff(stuff(s)) == Some(s),
    decreases s.len(),
{
    if s.len() == 0 {
        assert(stuff(s) =~= Seq::<u8>::empty());
    } else {
        let t = stuff(s);
        lemma_unstuff_stuff(s.drop_first());
        if s[0] == 0u8 || s[0] == 1u8 {
            assert(t.subrange(2, t.len() as int) =~= stuff(s.drop_first()));
            assert(seq![s[0]] + s.drop_first() =~= s);
        } else {
            assert(t.drop_first() =~= stuff(s.drop_first()));
            assert(seq![s[0]] + s.drop_first() =~= s);
        }
    }
}

/// Round trip, stuffed bytes to payload and back: bytes accepted by
/// `unstuff` are exactly the stuffing of what they unstuff to.
pub proof fn lemma_stuff_unstuff(s: Seq<u8>)
    ensures
        unstuff(s) matches Some(r) ==> stuff(r) == s,
    decreases s.len(),
{
    if s.len() > 0 && unstuff(s) is Some {
        if s[0] == 1u8 {
            let rest = s.subrange(2, s.len() as int);
            lemma_stuff_unstuff(rest);
            let r0 = unstuff(rest).unwrap();
            let first: u8 = if s[1] == 2u8 {
                0u8
            } else {
                1u8
            };
            let r = seq![first] + r0;
            assert(r.drop_first() =~= r0);
            assert(stuff(r) == stuff_byte(first) + stuff(r0));
            assert(stuff_byte(first) =~= s.subrange(0, 2));
            assert(stuff(r) =~= s);
        } else {
            let rest = s.drop_first();
            lemma_stuff_unstuff(rest);
            let r0 = unstuff(rest).unwrap();
            let r = seq![s[0]] + r0;
            assert(r.drop_first() =~= r0);
            assert(stuff(r) == stuff_byte(s[0]) + stuff(r0));
            assert(stuff_byte(s[0]) =~= s.subrange(0, 1));
            assert(stuff(r) =~= s);
        }
    }
}

/// Framing and recovery fit together: in one complete frame the first
/// terminator is the final byte, the buffer's cut at that terminator is the
/// stuffed payload, and unstuffing it yields the original payload.
pub proof fn lemma_frame_recovery(raw: Seq<u8>)
    ensures
        ({
            let framed = stuff(raw).push(terminator());
            &&& framed.contains(terminator())
            &&& framed.index_of_first(terminator()) == Some(stuff(raw).len() as int)
            &&& framed.subrange(0, stuff(raw).len() as int) == stuff(raw)
            &&& unstuff(framed.subrange(0, stuff(raw).len() as int)) == Some(raw)
        }),
{
    lemma_stuff_no_terminator(raw);
    lemma_unstuff_stuff(raw);
    let framed = stuff(raw).push(terminator());
    let n = stuff(raw).len() as int;
    assert(framed[n] == terminator());
    assert(framed.contains(terminator()));
    framed.index_of_first_ensures(terminator());
    let k = framed.index_of_first(terminator()).unwrap();
    assert(k == n) by {
        if k < n {
            assert(framed[k] == stuff(raw)[k]);
        }
    }
    assert(framed.subrange(0, n) =~= stuff(raw));
}

/// Stuff one payload and append the terminator: one complete frame.
pub fn frame_bytes(raw: &[u8]) -> (out: Vec<u8>)
    ensures
        out@ == stuff(raw@).push(terminator()),
{
    let n = raw.len();
    let mut out: Vec<u8> = Vec::new();
    let mut i: usize = 0;
    while i < n
        invariant
            n == raw@.len(),
            0 <= i <= n,
            out@ == stuff(raw@.subrange(0, i as int)),
        decreases n - i,
    {
        let x = *vstd::slice::slice_index_get(raw, i);
        if x == 0u8 {
            out.push(1u8);
            out.push(2u8);
        } else if x == 1u8 {
            out.push(1u8);
            out.push(3u8);
        } else {
            out.push(x);
        }
        proof {
            assert(raw@.subrange(0, i + 1) =~= raw@.subrange(0, i as int).push(raw@[i as int]));
            lemma_stuff_push(raw@.subrange(0, i as int), raw@[i as int]);
            assert(out@ =~= stuff(raw@.subrange(0, i as int)) + stuff_byte(raw@[i as int]));
        }
        i = i + 1;
    }
    proof {
        assert(raw@.subrange(0, n as int) =~= raw@);
    }
    out.push(0u8);
    out
}

/// Undo the byte stuffing of one frame payload; rejects malformed escapes
/// and stray terminator bytes.
pub fn unstuff_bytes(b: &[u8]) -> (r: Option<Vec<u8>>)
    ensures
        match r {
            Some(v) => unstuff(b@) == Some(v@),
            None => unstuff(b@) is None,
        },
{
    let n = b.len();
    let mut acc: Vec<u8> = Vec::new();
    let mut i: usize = 0;
    proof {
        assert(b@.subrange(0, n as int) =~= b@);
        match unstuff(b@) {
            Some(r) => {
                assert(Seq::<u8>::empty() + r =~= r);
            },
            None => {},
        }
    }
    while i < n
        invariant
            n == b@.len(),
            0 <= i <= n,
            unstuff(b@) == (match unstuff(b@.subrange(i as int, n as int)) {
                Some(r) => Some(acc@ + r),
                None => None::<Seq<u8>>,
            }),
        decreases n - i,
    {
        let ghost tail = b@.subrange(i as int, n as int);
        let x = *vstd::slice::slice_index_get(b, i);
        if x == 1u8 {
            if i + 1 < n {
                let y = *vstd::slice::slice_index_get(b, i + 1);
                if y == 2u8 || y == 3u8 {
                    let ghost accv = acc@;
                    acc.push(if y == 2u8 {
                        0u8
                    } else {
                        1u8
                    });
                    proof {
                        assert(tail.subrange(2, tail.len() as int) =~= b@.subrange(
                            i + 2,
                            n as int,
                        ));
                        match unstuff(b@.subrange(i + 2, n as int)) {
                            Some(r) => {
                                assert(accv + (seq![acc@[accv.len() as int]] + r) =~= acc@ + r);
                            },
                            None => {},
                        }
                    }
                    i = i + 2;
                } else {
                    return None;
                }
            } else {
                return None;
            }
        } else if x == 0u8 {
            return None;
        } else {
            let ghost accv = acc@;
            acc.push(x);
            proof {
                assert(tail.drop_first() =~= b@.subrange(i + 1, n as int));
                match unstuff(b@.subrange(i + 1, n as int)) {
                    Some(r) => {
                        assert(accv + (seq![x] + r) =~= acc@ + r);
                    },
                    None => {},
                }
            }
            i = i + 1;
        }
    }
    proof {
        assert(b@.subrange(n as int, n as int) =~= Seq::<u8>::empty());
        assert(acc@ + Seq::<u8>::empty() =~= acc@);
    }
    Some(acc)
}

/// An inbound byte buffer that recovers frame boundaries from a stream,
/// whatever shape the reads arrive in.
pub struct FrameBuffer {
    data: Vec<u8>,
}

impl View for FrameBuffer {
    type V = Seq<u8>;

    closed spec fn view(&self) -> Seq<u8> {
        self.data@
    }
}

impl FrameBuffer {
    /// An empty buffer.
    pub fn new() -> (r: FrameBuffer)
        ensures
            r@ == Seq::<u8>::empty(),
    {
        FrameBuffer { data: Vec::new() }
    }

    /// Append the bytes of one read to the buffer.
    pub fn push_chunk(&mut self, chunk: &[u8])
        ensures
            final(self)@ == old(self)@ + chunk@,
    {
        let mut add = vstd::slice::slice_to_vec(chunk);
        self.data.append(&mut add);
    }

    /// Remove and return the first complete frame's stuffed payload, without
    /// its terminator; `None` while no terminator has arrived yet.
    pub fn take_frame(&mut self) -> (r: Option<Vec<u8>>)
        ensures
            !old(self)@.contains(terminator()) ==> r is None && final(self)@ == old(self)@,
            old(self)@.contains(terminator()) ==> ({
                let cut = old(self)@.index_of_first(terminator()).unwrap();
                &&& r matches Some(v)
                &&& v@ == old(self)@.subrange(0, cut)
                &&& final(self)@ == old(self)@.subrange(cut + 1, old(self)@.len() as int)
            }),
    {
        let ghost s0 = self.data@;
        let n = self.data.len();
        let mut i: usize = 0;
        while i < n
            invariant
                s0 == old(self)@,
                self@ == s0,
                self.data@ == s0,
                n == s0.len(),
                0 <= i <= n,
                forall|j: int| 0 <= j < i ==> s0[j] != terminator(),
            decreases n - i,
        {
            if self.data[i] == 0u8 {
                proof {
                    assert(s0.contains(terminator()));
                    s0.index_of_first_ensures(terminator());
                    let k = s0.index_of_first(terminator()).unwrap();
                    assert(0 <= k < s0.len() && s0[k] == terminator());
                    assert(!(k < i) && !(i < k));
                }
                let mut rest = self.data.split_off(i + 1);
                self.data.truncate(i);
                core::mem::swap(&mut self.data, &mut rest);
                proof {
                    assert(self.data@ =~= s0.subrange(i + 1, s0.len() as int));
                    assert(rest@ =~= s0.subrange(0, i as int));
                }
                return Some(rest);
            }
            i = i + 1;
        }
        proof {
            assert(!s0.contains(terminator())) by {
                if s0.contains(terminator()) {
                    let k = choose|k: int| 0 <= k < s0.len() && s0[k] == terminator();
                    assert(s0[k] != terminator());
                }
            }
        }
        None
    }
}

} // verus!

//! KISS framing: escaping and unescaping of the byte stream that carries
//! AX.25 frames over a serial or TCP transport, and extraction of complete
//! frames from a raw receive buffer.

use vstd::prelude::*;

use crate::packet::{spec_parse_packet, Packet, PacketV};

verus! {

/// Frame delimiter.
pub const KISS_FEND: u8 = 0xC0;

/// Escape introducer.
pub const KISS_FESC: u8 = 0xDB;

/// Escaped form of FEND.
pub const KISS_TFEND: u8 = 0xDC;

/// Escaped form of FESC.
pub const KISS_TFESC: u8 = 0xDD;

/// The escaped form of one payload byte.
pub open spec fn escape_byte(b: u8) -> Seq<u8> {
    if b == KISS_FEND {
        seq![KISS_FESC, KISS_TFEND]
    } else if b == KISS_FESC {
        seq![KISS_FESC, KISS_TFESC]
    } else {
        seq![b]
    }
}

/// The escaped payload, with no framing around it.
pub open spec fn escaped(s: Seq<u8>) -> Seq<u8>
    decreases s.len(),
{
    if s.len() == 0 {
        Seq::empty()
    } else {
        escape_byte(s[0]) + escaped(s.skip(1))
    }
}

/// A whole KISS frame: FEND, the zero type-and-port byte, the escaped
/// payload, FEND.
pub open spec fn kiss_frame(s: Seq<u8>) -> Seq<u8> {
    seq![KISS_FEND, 0u8] + escaped(s) + seq![KISS_FEND]
}

/// What unescaping a byte string yields: escape pairs fold back to their
/// bytes; a dangling or unknown escape is an error.
pub open spec fn unescaped(s: Seq<u8>) -> Option<Seq<u8>>
    decreases s.len(),
{
    if s.len() == 0 {
        Some(Seq::empty())
    } else if s[0] == KISS_FESC {
        if s.len() == 1 {
            None
        } else if s[1] == KISS_TFEND {
            match unescaped(s.skip(2)) {
                Some(r) => Some(seq![KISS_FEND] + r),
                None => None,
            }
        } else if s[1] == KISS_TFESC {
            match unescaped(s.skip(2)) {
                Some(r) => Some(seq![KISS_FESC] + r),
                None => None,
            }
        } else {
            None
        }
    } else {
        match unescaped(s.skip(1)) {
            Some(r) => Some(seq![s[0]] + r),
            None => None,
        }
    }
}

/// Escape a payload and wrap it in KISS framing, with a zero type-and-port
/// byte.
pub fn escape(bytes: &[u8]) -> (r: Vec<u8>)
    ensures
        r@ == kiss_frame(bytes@),
{
    let mut ret: Vec<u8> = Vec::new();
    ret.push(KISS_FEND);
    ret.push(0);
    let mut i: usize = 0;
    while i < bytes.len()
        invariant
            0 <= i <= bytes@.len(),
            ret@ =~= seq![KISS_FEND, 0u8] + escaped(bytes@.take(i as int)),
        decreases bytes@.len() - i,
    {
        proof {
            lemma_escaped_snoc(bytes@.take(i as int), bytes@[i as int]);
            assert(bytes@.take(i + 1) =~= bytes@.take(i as int).push(bytes@[i as int]));
        }
        let b = bytes[i];
        if b == KISS_FEND {
            ret.push(KISS_FESC);
            ret.push(KISS_TFEND);
        } else if b == KISS_FESC {
            ret.push(KISS_FESC);
            ret.push(KISS_TFESC);
        } else {
            ret.push(b);
        }
        proof {
            assert(ret@ =~= seq![KISS_FEND, 0u8] + escaped(bytes@.take(i + 1)));
        }
        i += 1;
    }
    ret.push(KISS_FEND);
    proof {
        assert(bytes@.take(bytes@.len() as int) =~= bytes@);
        assert(ret@ =~= kiss_frame(bytes@));
    }
    ret
}

/// Appending one byte to a payload appends its escaped form.
proof fn lemma_escaped_snoc(s: Seq<u8>, b: u8)
    ensures
        escaped(s.push(b)) == escaped(s) + escape_byte(b),
    decreases s.len(),
{
    if s.len() == 0 {
        assert(s.push(b).skip(1) =~= Seq::<u8>::empty());
        assert(s.push(b)[0] == b);
        assert(escaped(Seq::<u8>::empty()) =~= Seq::<u8>::empty());
        assert(escaped(s.push(b)) =~= escape_byte(b) + Seq::<u8>::empty());
        assert(escape_byte(b) + Seq::<u8>::empty() =~= escaped(s) + escape_byte(b));
    } else {
        assert(s.push(b).skip(1) =~= s.skip(1).push(b));
        lemma_escaped_snoc(s.skip(1), b);
        assert(escaped(s.push(b)) =~= escaped(s) + escape_byte(b));
    }
}

/// The position of the first frame delimiter at or after `from`.
pub open spec fn first_fend(s: Seq<u8>, from: int) -> Option<int>
    decreases s.len() - from,
    when 0 <= from <= s.len()
{
    if from >= s.len() {
        None
    } else if s[from] == KISS_FEND {
        Some(from)
    } else {
        first_fend(s, from + 1)
    }
}

/// The first complete frame of a buffer: the positions of its first two
/// delimiters, when two exist.
pub open spec fn spec_find_frame(s: Seq<u8>) -> Option<(int, int)> {
    match first_fend(s, 0) {
        None => None,
        Some(a) => match first_fend(s, a + 1) {
            None => None,
            Some(b) => Some((a, b)),
        },
    }
}

/// A stretch without delimiters does not move the first delimiter.
proof fn lemma_first_fend_from(s: Seq<u8>, from: int, i: int)
    requires
        0 <= from <= i <= s.len(),
        forall|j: int| from <= j < i ==> s[j] != KISS_FEND,
    ensures
        first_fend(s, from) == first_fend(s, i),
    decreases i - from,
{
    if from < i {
        lemma_first_fend_from(s, from + 1, i);
    }
}

/// Find the first complete KISS frame in a buffer: the indices of the first
/// two FEND bytes, when two exist.
pub fn find_frame(buf: &Vec<u8>) -> (r: Option<(usize, usize)>)
    ensures
        match r {
            Some((a, b)) => 0 <= a < b < buf@.len() && spec_find_frame(buf@) == Some(
                (a as int, b as int),
            ),
            None => spec_find_frame(buf@) is None,
        },
{
    let n = buf.len();
    let mut start: usize = 0;
    let mut have_start = false;
    let mut i: usize = 0;
    while i < n
        invariant
            0 <= i <= n,
            n == buf@.len(),
            have_start ==> 0 <= start < i && buf@[start as int] == KISS_FEND,
            forall|j: int| 0 <= j < i && (!have_start || j != start) ==> buf@[j] != KISS_FEND,
        decreases n - i,
    {
        if buf[i] == KISS_FEND {
            if have_start {
                proof {
                    lemma_first_fend_from(buf@, 0, start as int);
                    lemma_first_fend_from(buf@, start + 1, i as int);
                }
                return Some((start, i));
            }
            start = i;
            have_start = true;
        }
        i += 1;
    }
    proof {
        if have_start {
            lemma_first_fend_from(buf@, 0, start as int);
            lemma_first_fend_from(buf@, start + 1, n as int);
        } else {
            lemma_first_fend_from(buf@, 0, n as int);
        }
    }
    None
}

/// Undo KISS escaping. Returns `None` when the data ends in a lone escape or
/// escapes an unknown byte.
pub fn unescape(data: &[u8]) -> (r: Option<Vec<u8>>)
    ensures
        match r {
            Some(v) => unescaped(data@) == Some(v@),
            None => unescaped(data@) is None,
        },
{
    let mut out: Vec<u8> = Vec::new();
    let mut i: usize = 0;
    let n = data.len();
    proof {
        assert(data@.skip(0) =~= data@);
        if unescaped(data@) is Some {
            assert(Seq::<u8>::empty() + unescaped(data@).unwrap() =~= unescaped(data@).unwrap());
        }
    }
    while i < n
        invariant
            0 <= i <= n,
            n == data@.len(),
            match unescaped(data@.skip(i as int)) {
                Some(t) => unescaped(data@) == Some(out@ + t),
                None => unescaped(data@) is None,
            },
        decreases n - i,
    {
        let ghost pre = data@.skip(i as int);
        let ghost out0 = out@;
        let b = data[i];
        proof {
            assert(pre[0] == b);
        }
        if b == KISS_FESC {
            if i + 1 >= n {
                proof {
                    assert(pre.len() == 1);
                    assert(unescaped(pre) is None);
                }
                return None;
            }
            let c = data[i + 1];
            proof {
                assert(pre[1] == c);
                assert(pre.skip(2) =~= data@.skip(i + 2));
            }
            if c == KISS_TFEND {
                out.push(KISS_FEND);
                proof {
                    let su = unescaped(data@.skip(i + 2));
                    if su is Some {
                        let t = su.unwrap();
                        assert(unescaped(pre) == Some(seq![KISS_FEND] + t));
                        assert(out0 + (seq![KISS_FEND] + t) =~= out@ + t);
                    }
                }
                i += 2;
            } else if c == KISS_TFESC {
                out.push(KISS_FESC);
                proof {
                    let su = unescaped(data@.skip(i + 2));
                    if su is Some {
                        let t = su.unwrap();
                        assert(unescaped(pre) == Some(seq![KISS_FESC] + t));
                        assert(out0 + (seq![KISS_FESC] + t) =~= out@ + t);
                    }
                }
                i += 2;
            } else {
                proof {
                    assert(unescaped(pre) is None);
                }
                return None;
            }
        } else {
            out.push(b);
            proof {
                assert(pre.skip(1) =~= data@.skip(i + 1));
                let su = unescaped(data@.skip(i + 1));
                if su is Some {
                    let t = su.unwrap();
                    assert(unescaped(pre) == Some(seq![b] + t));
                    assert(out0 + (seq![b] + t) =~= out@ + t);
                }
            }
            i += 1;
        }
    }
    proof {
        assert(data@.skip(n as int) =~= Seq::<u8>::empty());
        assert(unescaped(data@) == Some(out@ + Seq::<u8>::empty()));
        assert(out@ + Seq::<u8>::empty() =~= out@);
    }
    Some(out)
}

/// Remove the first `k` bytes of a buffer.
pub fn drain_front(v: &mut Vec<u8>, k: usize) -> (r: ())
    requires
        k <= old(v)@.len(),
    ensures
        final(v)@ == old(v)@.skip(k as int),
{
    let tail = v.split_off(k);
    *v = tail;
}

/// What draining a receive buffer yields: the packets parsed out of its
/// successive complete frames, in stream order, and the unconsumed tail.
/// A frame shorter than an AX.25 header drops up to and including its
/// opening delimiter; a longer frame is consumed up to (not including) its
/// closing delimiter, which opens the next frame; its contents count only
/// when they unescape and parse.
pub open spec fn spec_kisser_read(s: Seq<u8>) -> (Seq<PacketV>, Seq<u8>)
    decreases s.len(),
{
    match spec_find_frame(s) {
        None => (Seq::empty(), s),
        Some((a, b)) => if 0 <= a < b < s.len() {
            if b - a < 14 {
                spec_kisser_read(s.skip(a + 1))
            } else {
                let rest = spec_kisser_read(s.skip(b));
                match unescaped(s.subrange(a + 2, b)) {
                    Some(bytes) => match spec_parse_packet(bytes) {
                        Ok(p) => (seq![p] + rest.0, rest.1),
                        Err(_) => rest,
                    },
                    None => rest,
                }
            }
        } else {
            (Seq::empty(), s)
        },
    }
}

/// Drain every complete KISS frame out of a receive buffer and parse the
/// frames it held, exactly as `spec_kisser_read` describes: the result is
/// the parses of the buffer's successive well-formed frames in stream
/// order, and the buffer keeps only the unconsumed tail.
pub fn kisser_read(ibuf: &mut Vec<u8>) -> (r: Vec<Packet>)
    ensures
        r@.map_values(|p: Packet| p@) == spec_kisser_read(old(ibuf)@).0,
        final(ibuf)@ == spec_kisser_read(old(ibuf)@).1,
{
    let ghost b0 = old(ibuf)@;
    let mut ret: Vec<Packet> = Vec::new();
    proof {
        assert(ret@.map_values(|p: Packet| p@) =~= Seq::<PacketV>::empty());
        assert(Seq::<PacketV>::empty() + spec_kisser_read(b0).0 =~= spec_kisser_read(b0).0);
    }
    loop
        invariant
            b0 == old(ibuf)@,
            spec_kisser_read(b0) == {
                let (ps, rest) = spec_kisser_read(ibuf@);
                (ret@.map_values(|p: Packet| p@) + ps, rest)
            },
        decreases ibuf@.len(),
    {
        let ghost pre = ibuf@;
        let found = find_frame(ibuf);
        match found {
            None => {
                proof {
                    assert(spec_kisser_read(pre) == (Seq::<PacketV>::empty(), pre));
                    assert(ret@.map_values(|p: Packet| p@) + Seq::<PacketV>::empty()
                        =~= ret@.map_values(|p: Packet| p@));
                    assert(spec_kisser_read(b0).0 == ret@.map_values(|p: Packet| p@));
                    assert(spec_kisser_read(b0).1 == ibuf@);
                }
                return ret;
            },
            Some((a, b)) => {
                if b - a < 14 {
                    drain_front(ibuf, a + 1);
                } else {
                    let contents = vstd::slice::slice_to_vec(
                        vstd::slice::slice_subrange(ibuf.as_slice(), a + 2, b),
                    );
                    drain_front(ibuf, b);
                    proof {
                        assert(contents@ == pre.subrange(a + 2, b as int));
                        assert(ibuf@ == pre.skip(b as int));
                    }
                    if let Some(bytes) = unescape(contents.as_slice()) {
                        match Packet::parse(bytes.as_slice()) {
                            Ok(packet) => {
                                let ghost r0 = ret@.map_values(|p: Packet| p@);
                                let ghost step = spec_kisser_read(ibuf@);
                                ret.push(packet);
                                proof {
                                    assert(spec_kisser_read(pre) == (
                                        seq![packet@] + step.0,
                                        step.1,
                                    ));
                                    assert(ret@.map_values(|p: Packet| p@) =~= r0.push(packet@));
                                    assert(r0 + (seq![packet@] + step.0) =~= r0.push(packet@)
                                        + step.0);
                                }
                            },
                            Err(_) => {},
                        }
                    }
                }
            },
        }
    }
}

} // verus!

//! Sync-frame parser for the DFSDM audio UART protocol.
//!
//! Wire format of one burst:
//!
//! ```text
//! [0xAA 0x55 0xAA 0x55]   4-byte sync word
//! [1024 x int16 LE]       2048 bytes of audio samples
//! ```
//!
//! Bytes arrive in arbitrary read-sized pieces; the parser accumulates them,
//! hunts for the sync word, and decodes every complete payload that follows
//! one.  It does no I/O.
use vstd::prelude::*;

verus! {

/// First and third byte of the sync word.
pub const SYNC_HI: u8 = 0xAA;

/// Second and fourth byte of the sync word.
pub const SYNC_LO: u8 = 0x55;

/// Number of bytes in the sync word.
pub const SYNC_LEN: usize = 4;

/// Samples carried by one burst.
pub const BURST_SAMPLES: usize = 1024;

/// Payload bytes of one burst (little-endian int16 samples).
pub const BURST_BYTES: usize = 2048;

/// The four bytes at `p` in `s` are the sync word `AA 55 AA 55`.
pub open spec fn sync_at(s: Seq<u8>, p: int) -> bool {
    &&& 0 <= p
    &&& p + 4 <= s.len()
    &&& s[p] == SYNC_HI
    &&& s[p + 1] == SYNC_LO
    &&& s[p + 2] == SYNC_HI
    &&& s[p + 3] == SYNC_LO
}

/// The first position at or after `i` where a sync word starts in `s`.
pub open spec fn first_sync_from(s: Seq<u8>, i: int) -> Option<int>
    decreases s.len() - i,
{
    if i < 0 || i + 4 > s.len() {
        None
    } else if sync_at(s, i) {
        Some(i)
    } else {
        first_sync_from(s, i + 1)
    }
}

/// The byte offset of the first sync word in `s`, if there is one.
pub open spec fn find_sync_spec(s: Seq<u8>) -> Option<int> {
    first_sync_from(s, 0)
}

/// The int16 whose little-endian bytes are `lo`, `hi` (two's complement).
pub open spec fn le_i16(lo: u8, hi: u8) -> i16 {
    let v = lo as int + 256 * (hi as int);
    (if v >= 32768 {
        v - 65536
    } else {
        v
    }) as i16
}

/// The samples encoded by the first `2 * BURST_SAMPLES` bytes of `b`.
pub open spec fn decode_burst(b: Seq<u8>) -> Seq<i16> {
    Seq::new(BURST_SAMPLES as nat, |k: int| le_i16(b[2 * k], b[2 * k + 1]))
}

/// What the parser keeps of a buffer that holds no sync word: its last three
/// bytes, since a sync word may straddle the next read boundary.
pub open spec fn keep_tail(s: Seq<u8>) -> Seq<u8> {
    if s.len() > 3 {
        s.skip(s.len() - 3)
    } else {
        s
    }
}

/// Parse the buffered bytes `acc`, starting hunting for a sync word when
/// `synced` is false and expecting payload bytes when it is true.  Returns
/// the bytes left buffered, whether a sync word has been consumed whose
/// payload is still incomplete, and the bursts completed, in order.
pub open spec fn parse_stream(acc: Seq<u8>, synced: bool) -> (Seq<u8>, bool, Seq<Seq<i16>>)
    decreases acc.len(),
{
    if !synced {
        match find_sync_spec(acc) {
            Some(p) => {
                proof {
                    lemma_first_sync_from(acc, 0);
                }
                parse_stream(acc.skip(p + 4), true)
            },
            None => (keep_tail(acc), false, Seq::empty()),
        }
    } else if acc.len() < BURST_BYTES {
        (acc, true, Seq::empty())
    } else {
        let r = parse_stream(acc.skip(BURST_BYTES as int), false);
        (r.0, r.1, seq![decode_burst(acc.take(BURST_BYTES as int))] + r.2)
    }
}

/// The sample sequences held by a list of bursts.
pub open spec fn bursts_view(v: Seq<Vec<i16>>) -> Seq<Seq<i16>> {
    v.map_values(|b: Vec<i16>| b@)
}

/// A parser state that `push_bytes` can leave behind: while hunting at most
/// three bytes are kept, while synced less than one payload is kept, and
/// every completed burst holds `BURST_SAMPLES` samples.
pub open spec fn parser_state_valid(acc: Seq<u8>, synced: bool, bursts: Seq<Seq<i16>>) -> bool {
    &&& synced ==> acc.len() < BURST_BYTES
    &&& !synced ==> acc.len() <= 3
    &&& forall|i: int| 0 <= i < bursts.len() ==> (#[trigger] bursts[i]).len() == BURST_SAMPLES
}

/// Stateful sync-frame parser: feed raw bytes with `push_bytes` and take the
/// completed bursts with `drain_bursts`.
pub struct SyncFrameParser {
    /// Bytes accumulated between `push_bytes` calls.
    acc: Vec<u8>,
    /// True after a sync word has been consumed; expecting payload bytes.
    synced: bool,
    /// Completed bursts waiting for `drain_bursts`.
    ready: Vec<Vec<i16>>,
}

impl View for SyncFrameParser {
    type V = (Seq<u8>, bool, Seq<Seq<i16>>);

    /// `(buffered bytes, synced, completed bursts)`.
    closed spec fn view(&self) -> (Seq<u8>, bool, Seq<Seq<i16>>) {
        (self.acc@, self.synced, bursts_view(self.ready@))
    }
}

impl SyncFrameParser {
    #[verifier::type_invariant]
    spec fn inv(self) -> bool {
        parser_state_valid(self.acc@, self.synced, bursts_view(self.ready@))
    }

    /// A parser hunting for a sync word, with nothing buffered.
    pub fn new() -> (p: Self)
        ensures
            p@ == (Seq::<u8>::empty(), false, Seq::<Seq<i16>>::empty()),
    {
        let p = SyncFrameParser {
            acc: Vec::with_capacity(BURST_BYTES * 2 + 8),
            synced: false,
            ready: Vec::new(),
        };
        proof {
            assert(bursts_view(p.ready@) =~= Seq::<Seq<i16>>::empty());
        }
        p
    }

    /// Append raw bytes from the serial port and parse every complete frame.
    pub fn push_bytes(&mut self, data: &[u8])
        ensures
            final(self)@ == parse_then(old(self)@, data@),
            parser_state_valid(final(self)@.0, final(self)@.1, final(self)@.2),
    {
        proof {
            use_type_invariant(&*self);
        }
        let ghost old_acc = self.acc@;
        let ghost s0 = self.synced;
        let ghost old_bursts = bursts_view(self.ready@);
        let mut buf: Vec<u8> = Vec::new();
        std::mem::swap(&mut buf, &mut self.acc);
        let mut ready: Vec<Vec<i16>> = Vec::new();
        std::mem::swap(&mut ready, &mut self.ready);
        let dn = data.len();
        let mut k: usize = 0;
        while k < dn
            invariant
                dn == data@.len(),
                0 <= k <= dn,
                buf@ == old_acc + data@.take(k as int),
            decreases dn - k,
        {
            buf.push(data[k]);
            k += 1;
            proof {
                assert(old_acc + data@.take(k as int) =~= (old_acc + data@.take(k - 1)).push(
                    data@[k - 1],
                ));
            }
        }
        proof {
            assert(data@.take(dn as int) =~= data@);
        }
        let ghost full = buf@;
        let len = buf.len();
        let mut pos: usize = 0;
        let mut synced = self.synced;
        let ghost mut emitted: Seq<Seq<i16>> = Seq::empty();
        proof {
            assert(full.skip(0) =~= full);
            assert(old_bursts + emitted =~= old_bursts);
            let r = parse_stream(full, s0);
            assert(emitted + r.2 =~= r.2);
        }
        loop
            invariant_except_break
                len == buf@.len(),
                buf@ == full,
                0 <= pos <= len,
                self.acc@.len() == 0,
                self.synced == s0,
                bursts_view(ready@) == old_bursts + emitted,
                forall|i: int| 0 <= i < emitted.len() ==> (#[trigger] emitted[i]).len() == BURST_SAMPLES,
                
                parser_state_valid(Seq::<u8>::empty(), s0, old_bursts),
                ({
                    let r = parse_stream(full.skip(pos as int), synced);
                    parse_stream(full, s0) == (r.0, r.1, emitted + r.2)
                }),
            ensures
                len == buf@.len(),
                buf@ == full,
                0 <= pos <= len,
                self.acc@.len() == 0,
                self.synced == s0,
                bursts_view(ready@) == old_bursts + emitted,
                parse_stream(full, s0) == (full.skip(pos as int), synced, emitted),
            decreases len - pos,
        {
            if !synced {
                let tail = slice_from(buf.as_slice(), pos);
                proof {
                    assert(tail@ =~= full.skip(pos as int));
                }
                let found = find_sync(tail);
                match found {
                    Some(p) => {
                        proof {
                            lemma_first_sync_from(full.skip(pos as int), 0);
                            assert(full.skip(pos as int).skip(p + 4) =~= full.skip(pos + p + 4));
                        }
                        pos = pos + p + 4;
                        synced = true;
                    },
                    None => {
                        proof {
                            let rest = full.skip(pos as int);
                            assert(parse_stream(rest, false) == (keep_tail(rest), false, Seq::<Seq<i16>>::empty()));
                            assert(emitted + Seq::<Seq<i16>>::empty() =~= emitted);
                        }
                        if len - pos > 3 {
                            proof {
                                let rest = full.skip(pos as int);
                                assert(keep_tail(rest) =~= full.skip(len - 3));
                            }
                            pos = len - 3;
                        }
                        break ;
                    },
                }
            }
            assert(synced);
            if len - pos < BURST_BYTES {
                proof {
                    let rest = full.skip(pos as int);
                    assert(parse_stream(rest, true) == (rest, true, Seq::<Seq<i16>>::empty()));
                    assert(emitted + Seq::<Seq<i16>>::empty() =~= emitted);
                }
                break ;
            }
            let samples = decode_burst_at(&buf, pos);
            proof {
                let rest = full.skip(pos as int);
                assert(rest.len() >= BURST_BYTES);
                let r2 = parse_stream(rest.skip(BURST_BYTES as int), false);
                assert(parse_stream(rest, true) == (r2.0, r2.1, seq![decode_burst(rest.take(BURST_BYTES as int))] + r2.2));
                assert(rest.take(BURST_BYTES as int) =~= full.subrange(pos as int, pos + BURST_BYTES));
                assert(rest.skip(BURST_BYTES as int) =~= full.skip(pos + BURST_BYTES));
                let r2 = parse_stream(full.skip(pos + BURST_BYTES), false);
                assert(emitted + (seq![samples@] + r2.2) =~= emitted.push(samples@) + r2.2);
                assert(bursts_view(ready@.push(samples)) =~= bursts_view(ready@).push(
                    samples@,
                ));
                assert(old_bursts + emitted.push(samples@) =~= (old_bursts + emitted).push(samples@));
                emitted = emitted.push(samples@);
            }
            pos = pos + BURST_BYTES;
            synced = false;
            ready.push(samples);
        }
        proof {
            lemma_parse_shape(full, s0);
            lemma_parse_shape(full.skip(pos as int), synced);
        }
        self.synced = synced;
        let rest = buf.split_off(pos);
        proof {
            assert(rest@ =~= full.skip(pos as int));
            assert forall|i: int| 0 <= i < (old_bursts + emitted).len() implies (#[trigger] (
            old_bursts + emitted)[i]).len() == BURST_SAMPLES by {
                if i >= old_bursts.len() {
                    assert((old_bursts + emitted)[i] == emitted[i - old_bursts.len()]);
                }
            }
        }
        self.acc = rest;
        self.ready = ready;
    }

    /// Take all completed bursts, oldest first, leaving none behind.
    pub fn drain_bursts(&mut self) -> (bursts: Vec<Vec<i16>>)
        ensures
            bursts_view(bursts@) == old(self)@.2,
            final(self)@ == (old(self)@.0, old(self)@.1, Seq::<Seq<i16>>::empty()),
            forall|i: int| 0 <= i < bursts@.len() ==> (#[trigger] bursts@[i])@.len() == BURST_SAMPLES,
    {
        proof {
            use_type_invariant(&*self);
        }
        let mut out: Vec<Vec<i16>> = Vec::new();
        std::mem::swap(&mut out, &mut self.ready);
        proof {
            assert(bursts_view(self.ready@) =~= Seq::<Seq<i16>>::empty());
            assert forall|i: int| 0 <= i < out@.len() implies (#[trigger] out@[i])@.len()
                == BURST_SAMPLES by {
                assert(bursts_view(out@)[i] == out@[i]@);
            }
        }
        out
    }
}

/// `s[from..]`.
fn slice_from(s: &[u8], from: usize) -> (r: &[u8])
    requires
        from <= s@.len(),
    ensures
        r@ == s@.subrange(from as int, s@.len() as int),
{
    let n = s.len();
    &s[from..n]
}

/// Returns the byte offset of the first sync word in `buf`: the first `p`
/// with `buf[p..p + 4] == [0xAA, 0x55, 0xAA, 0x55]`, or `None` when no
/// four-byte window of `buf` is the sync word.
fn find_sync(buf: &[u8]) -> (r: Option<usize>)
    ensures
        match r {
            Some(p) => {
                &&& find_sync_spec(buf@) == Some(p as int)
                &&& sync_at(buf@, p as int)
                &&& forall|q: int| 0 <= q < p ==> !sync_at(buf@, q)
            },
            None => {
                &&& find_sync_spec(buf@) == None::<int>
                &&& forall|q: int| 0 <= q ==> !sync_at(buf@, q)
            },
        },
{
    proof {
        lemma_first_sync_from(buf@, 0);
    }
    let n = buf.len();
    let mut i: usize = 0;
    while i <= n && n - i >= 4
        invariant
            n == buf@.len(),
            i <= n,
            first_sync_from(buf@, 0) == first_sync_from(buf@, i as int),
        decreases n - i,
    {
        if buf[i] == SYNC_HI && buf[i + 1] == SYNC_LO && buf[i + 2] == SYNC_HI && buf[i + 3] == SYNC_LO {
            proof {
                assert(sync_at(buf@, i as int));
                assert(first_sync_from(buf@, i as int) == Some(i as int));
                assert(find_sync_spec(buf@) == Some(i as int));
                lemma_first_sync_from(buf@, 0);
            }
            return Some(i);
        }
        i += 1;
    }
    None
}

/// The int16 whose little-endian bytes are `lo`, `hi`.
fn i16_from_le(lo: u8, hi: u8) -> (r: i16)
    ensures
        r == le_i16(lo, hi),
{
    let v: i32 = lo as i32 + (hi as i32) * 256;
    if v >= 32768 {
        (v - 65536) as i16
    } else {
        v as i16
    }
}

/// Decode the burst payload that starts at `pos` in `buf`.
fn decode_burst_at(buf: &Vec<u8>, pos: usize) -> (r: Vec<i16>)
    requires
        pos + BURST_BYTES <= buf@.len(),
    ensures
        r@ == decode_burst(buf@.subrange(pos as int, pos + BURST_BYTES)),
        r@.len() == BURST_SAMPLES,
{
    let ghost b = buf@.subrange(pos as int, pos + BURST_BYTES);
    let mut out: Vec<i16> = Vec::with_capacity(BURST_SAMPLES);
    let n = buf.len();
    let mut k: usize = 0;
    while k < BURST_SAMPLES
        invariant
            n == buf@.len(),
            0 <= k <= BURST_SAMPLES,
            pos + BURST_BYTES <= buf@.len(),
            b == buf@.subrange(pos as int, pos + BURST_BYTES),
            out@.len() == k,
            forall|j: int| 0 <= j < k ==> #[trigger] out@[j] == le_i16(b[2 * j], b[2 * j + 1]),
        decreases BURST_SAMPLES - k,
    {
        let lo = buf[pos + 2 * k];
        let hi = buf[pos + 2 * k + 1];
        out.push(i16_from_le(lo, hi));
        k += 1;
    }
    proof {
        assert(out@ =~= decode_burst(b));
    }
    out
}

/// Characterisation of `first_sync_from`.
pub proof fn lemma_first_sync_from(s: Seq<u8>, i: int)
    requires
        0 <= i,
    ensures
        match first_sync_from(s, i) {
            Some(p) => {
                &&& i <= p
                &&& p + 4 <= s.len()
                &&& sync_at(s, p)
                &&& forall|q: int| i <= q < p ==> !sync_at(s, q)
            },
            None => forall|q: int| i <= q ==> !sync_at(s, q),
        },
    decreases s.len() - i,
{
    if i + 4 <= s.len() && !sync_at(s, i) {
        lemma_first_sync_from(s, i + 1);
    }
}

/// A sync word at `p` with none before it is the one `find_sync_spec` finds.
pub proof fn lemma_find_sync_is(s: Seq<u8>, p: int)
    requires
        sync_at(s, p),
        forall|q: int| 0 <= q < p ==> !sync_at(s, q),
    ensures
        find_sync_spec(s) == Some(p),
{
    lemma_first_sync_from(s, 0);
    match find_sync_spec(s) {
        Some(p2) => {
            if p2 < p {
                assert(!sync_at(s, p2));
            } else if p < p2 {
                assert(!sync_at(s, p));
            }
        },
        None => {
            assert(!sync_at(s, p));
        },
    }
}

/// A buffer with no sync word anywhere has none to find.
pub proof fn lemma_find_sync_none(s: Seq<u8>)
    requires
        forall|q: int| 0 <= q ==> !sync_at(s, q),
    ensures
        find_sync_spec(s) == None::<int>,
{
    lemma_first_sync_from(s, 0);
}

/// Shape of every parse result: see `parser_state_valid`.
pub proof fn lemma_parse_shape(acc: Seq<u8>, synced: bool)
    ensures
        parser_state_valid(
            parse_stream(acc, synced).0,
            parse_stream(acc, synced).1,
            parse_stream(acc, synced).2,
        ),
    decreases acc.len(),
{
    if !synced {
        lemma_first_sync_from(acc, 0);
        match find_sync_spec(acc) {
            Some(p) => {
                lemma_parse_shape(acc.skip(p + 4), true);
            },
            None => {},
        }
    } else if acc.len() >= BURST_BYTES {
        let r = parse_stream(acc.skip(BURST_BYTES as int), false);
        lemma_parse_shape(acc.skip(BURST_BYTES as int), false);
        let d = decode_burst(acc.take(BURST_BYTES as int));
        assert forall|i: int| 0 <= i < (seq![d] + r.2).len() implies (#[trigger] (seq![d]
            + r.2)[i]).len() == BURST_SAMPLES by {
            if i > 0 {
                assert((seq![d] + r.2)[i] == r.2[i - 1]);
            }
        }
    }
}


/// Feeding `y` to the parse result of `x`: the state reached by pushing `x`
/// and then `y` into a parser.
pub open spec fn parse_then(first: (Seq<u8>, bool, Seq<Seq<i16>>), y: Seq<u8>) -> (
    Seq<u8>,
    bool,
    Seq<Seq<i16>>,
) {
    let r = parse_stream(first.0 + y, first.1);
    (r.0, r.1, first.2 + r.2)
}

/// While hunting, bytes in front of `z` that cannot start a sync word are
/// skipped without effect.
proof fn lemma_parse_skips_dead_prefix(pre: Seq<u8>, z: Seq<u8>)
    requires
        forall|q: int| 0 <= q < pre.len() ==> !sync_at(pre + z, q),
        pre.len() == 0 || z.len() >= 3,
    ensures
        parse_stream(pre + z, false) == parse_stream(z, false),
{
    let w = pre + z;
    let k = pre.len() as int;
    if k == 0 {
        assert(w =~= z);
        return ;
    }
    assert forall|q: int| k <= q implies #[trigger] sync_at(w, q) == sync_at(z, q - k) by {
        if q + 4 <= w.len() {
            assert(w[q] == z[q - k] && w[q + 1] == z[q - k + 1] && w[q + 2] == z[q - k + 2] && w[q
                + 3] == z[q - k + 3]);
        }
    }
    lemma_first_sync_from(z, 0);
    match find_sync_spec(z) {
        Some(p) => {
            assert(sync_at(w, p + k));
            assert forall|q: int| 0 <= q < p + k implies !sync_at(w, q) by {
                if q >= k {
                    assert(sync_at(w, q) == sync_at(z, q - k));
                }
            }
            lemma_find_sync_is(w, p + k);
            lemma_first_sync_from(w, 0);
            assert(w.skip(p + k + 4) =~= z.skip(p + 4));
        },
        None => {
            assert forall|q: int| 0 <= q implies !sync_at(w, q) by {
                if q >= k {
                    assert(sync_at(w, q) == sync_at(z, q - k));
                }
            }
            lemma_find_sync_none(w);
            assert(keep_tail(w) =~= keep_tail(z));
        },
    }
}

/// Streaming law, stated on the parse function: parsing `x + y` in one go
/// gives the same buffered bytes, sync flag and bursts as parsing `x` and
/// then feeding `y` to what is left.
pub proof fn lemma_parse_concat(x: Seq<u8>, y: Seq<u8>, synced: bool)
    ensures
        parse_stream(x + y, synced) == parse_then(parse_stream(x, synced), y),
    decreases x.len(),
{
    let empty = Seq::<Seq<i16>>::empty();
    if !synced {
        lemma_first_sync_from(x, 0);
        match find_sync_spec(x) {
            Some(p) => {
                assert(sync_at(x + y, p));
                assert forall|q: int| 0 <= q < p implies !sync_at(x + y, q) by {
                    assert(!sync_at(x, q));
                    if q + 4 <= (x + y).len() {
                        assert((x + y)[q] == x[q] && (x + y)[q + 1] == x[q + 1] && (x + y)[q + 2]
                            == x[q + 2] && (x + y)[q + 3] == x[q + 3]);
                    }
                }
                lemma_find_sync_is(x + y, p);
                lemma_first_sync_from(x + y, 0);
                assert((x + y).skip(p + 4) =~= x.skip(p + 4) + y);
                lemma_parse_concat(x.skip(p + 4), y, true);
            },
            None => {
                let kept = keep_tail(x);
                let k = x.len() - kept.len();
                let pre = x.take(k);
                assert(x + y =~= pre + (kept + y));
                assert forall|q: int| 0 <= q < pre.len() implies !sync_at(pre + (kept + y), q) by {
                    assert(!sync_at(x, q));
                    assert((pre + (kept + y))[q] == x[q] && (pre + (kept + y))[q + 1] == x[q + 1]
                        && (pre + (kept + y))[q + 2] == x[q + 2] && (pre + (kept + y))[q + 3] == x[q
                        + 3]);
                }
                lemma_parse_skips_dead_prefix(pre, kept + y);
                let r = parse_stream(kept + y, false);
                assert(empty + r.2 =~= r.2);
            },
        }
    } else if x.len() < BURST_BYTES {
        let r = parse_stream(x + y, true);
        assert(empty + r.2 =~= r.2);
    } else {
        assert((x + y).take(BURST_BYTES as int) =~= x.take(BURST_BYTES as int));
        assert((x + y).skip(BURST_BYTES as int) =~= x.skip(BURST_BYTES as int) + y);
        lemma_parse_concat(x.skip(BURST_BYTES as int), y, false);
        let d = decode_burst(x.take(BURST_BYTES as int));
        let q = parse_stream(x.skip(BURST_BYTES as int), false);
        let r = parse_stream(q.0 + y, q.1);
        assert(seq![d] + (q.2 + r.2) =~= (seq![d] + q.2) + r.2);
    }
}

/// Streaming law: pushing `a` and then `b` into a parser leaves it in the
/// same state, with the same bursts in the same order, as pushing `a + b`
/// at once.  How the serial port splits the byte stream into reads does not
/// matter, even when a sync word or a payload straddles a read boundary.
pub proof fn lemma_push_split(acc: Seq<u8>, synced: bool, a: Seq<u8>, b: Seq<u8>)
    ensures
        parse_stream(acc + (a + b), synced) == parse_then(parse_stream(acc + a, synced), b),
{
    assert(acc + (a + b) =~= (acc + a) + b);
    lemma_parse_concat(acc + a, b, synced);
}

/// Low byte of the little-endian encoding of `x`.
pub open spec fn le_lo(x: i16) -> u8 {
    (x as int % 256) as u8
}

/// High byte of the little-endian encoding of `x`.
pub open spec fn le_hi(x: i16) -> u8 {
    ((x as int / 256) % 256) as u8
}

/// Little-endian encoding of a sequence of samples.
pub open spec fn encode_le(xs: Seq<i16>) -> Seq<u8> {
    Seq::new(
        2 * xs.len(),
        |j: int|
            if j % 2 == 0 {
                le_lo(xs[j / 2])
            } else {
                le_hi(xs[j / 2])
            },
    )
}

/// The sync word.
pub open spec fn sync_word() -> Seq<u8> {
    seq![SYNC_HI, SYNC_LO, SYNC_HI, SYNC_LO]
}

/// The bytes the firmware sends for one burst of samples.
pub open spec fn frame_bytes(samples: Seq<i16>) -> Seq<u8> {
    sync_word() + encode_le(samples)
}

/// Decoding the little-endian bytes of `x` gives back `x`.
pub proof fn lemma_le_roundtrip(x: i16)
    ensures
        le_i16(le_lo(x), le_hi(x)) == x,
{
    let v = x as int;
    let r = v % 256;
    let q = v / 256;
    assert(v == 256 * q + r && 0 <= r < 256 && -128 <= q < 128) by (nonlinear_arith)
        requires
            -32768 <= v <= 32767,
            r == v % 256,
            q == v / 256,
    ;
    if q >= 0 {
        assert(q % 256 == q);
    } else {
        assert(q % 256 == q + 256);
    }
}

/// Frame round trip: the bytes the firmware sends for one burst, pushed into
/// a parser that is hunting with nothing buffered, yield exactly that burst
/// and leave the parser hunting with nothing buffered.
pub proof fn lemma_frame_roundtrip(samples: Seq<i16>)
    requires
        samples.len() == BURST_SAMPLES,
    ensures
        parse_stream(frame_bytes(samples), false) == (
            Seq::<u8>::empty(),
            false,
            seq![samples],
        ),
{
    let f = frame_bytes(samples);
    assert(sync_at(f, 0));
    lemma_find_sync_is(f, 0);
    let payload = f.skip(4);
    assert(payload =~= encode_le(samples));
    assert(payload.skip(BURST_BYTES as int) =~= Seq::<u8>::empty());
    assert(payload.take(BURST_BYTES as int) =~= payload);
    assert forall|k: int| 0 <= k < BURST_SAMPLES implies #[trigger] decode_burst(payload)[k]
        == samples[k] by {
        assert(payload[2 * k] == le_lo(samples[k]));
        assert(payload[2 * k + 1] == le_hi(samples[k]));
        lemma_le_roundtrip(samples[k]);
    }
    assert(decode_burst(payload) =~= samples);
    let e = Seq::<u8>::empty();
    lemma_find_sync_none(e);
    assert(keep_tail(e) =~= e);
    assert(parse_stream(e, false) == (e, false, Seq::<Seq<i16>>::empty()));
    assert(seq![samples] + Seq::<Seq<i16>>::empty() =~= seq![samples]);
    assert(payload.len() == BURST_BYTES);
    assert(parse_stream(payload, true) == (e, false, seq![samples]));
    assert(parse_stream(f, false) == parse_stream(payload, true));
}


/// Noise law: while hunting, bytes that contain no sync word yield no burst,
/// and only their last three bytes stay buffered.
pub proof fn lemma_noise_yields_nothing(bytes: Seq<u8>)
    requires
        forall|q: int| 0 <= q ==> !sync_at(bytes, q),
    ensures
        parse_stream(bytes, false) == (keep_tail(bytes), false, Seq::<Seq<i16>>::empty()),
        keep_tail(bytes).len() <= 3,
        bytes.len() >= 3 ==> parse_stream(bytes, false).0 == bytes.subrange(
            bytes.len() - 3,
            bytes.len() as int,
        ),
        bytes.len() < 3 ==> parse_stream(bytes, false).0 == bytes,
        parse_stream(bytes, false).2.len() == 0,
{
    lemma_find_sync_none(bytes);
    if bytes.len() == 3 {
        assert(bytes.subrange(0, 3) =~= bytes);
    }
}

/// Resynchronisation law: whatever precedes a frame is discarded, as long as
/// no sync word starts before the frame's own; the frame's burst comes out
/// intact.
pub proof fn lemma_resync_after_noise(noise: Seq<u8>, samples: Seq<i16>)
    requires
        samples.len() == BURST_SAMPLES,
        forall|q: int| 0 <= q < noise.len() ==> !sync_at(noise + frame_bytes(samples), q),
    ensures
        parse_stream(noise + frame_bytes(samples), false) == (
            Seq::<u8>::empty(),
            false,
            seq![samples],
        ),
{
    lemma_parse_skips_dead_prefix(noise, frame_bytes(samples));
    lemma_frame_roundtrip(samples);
}


/// Pushing no bytes changes nothing: a parser state left by `push_bytes`
/// is a fixed point of parsing.
pub proof fn lemma_push_nothing(acc: Seq<u8>, synced: bool)
    requires
        parser_state_valid(acc, synced, Seq::<Seq<i16>>::empty()),
    ensures
        parse_stream(acc + Seq::<u8>::empty(), synced) == (acc, synced, Seq::<Seq<i16>>::empty()),
{
    assert(acc + Seq::<u8>::empty() =~= acc);
    if !synced {
        lemma_find_sync_none(acc);
    }
}


/// All chunks, in order, as one byte stream.
pub open spec fn concat_chunks(chunks: Seq<Seq<u8>>) -> Seq<u8>
    decreases chunks.len(),
{
    if chunks.len() == 0 {
        Seq::empty()
    } else {
        concat_chunks(chunks.drop_last()) + chunks.last()
    }
}

/// The parser state after pushing each chunk in turn, starting from `st`.
pub open spec fn push_all(st: (Seq<u8>, bool, Seq<Seq<i16>>), chunks: Seq<Seq<u8>>) -> (
    Seq<u8>,
    bool,
    Seq<Seq<i16>>,
)
    decreases chunks.len(),
{
    if chunks.len() == 0 {
        st
    } else {
        parse_then(push_all(st, chunks.drop_last()), chunks.last())
    }
}

/// Pushing `a` and then `b` is pushing `a + b`, from any parser state.
pub proof fn lemma_parse_then_concat(st: (Seq<u8>, bool, Seq<Seq<i16>>), a: Seq<u8>, b: Seq<u8>)
    ensures
        parse_then(parse_then(st, a), b) == parse_then(st, a + b),
{
    lemma_push_split(st.0, st.1, a, b);
    let r1 = parse_stream(st.0 + a, st.1);
    let r2 = parse_stream(r1.0 + b, r1.1);
    assert((st.2 + r1.2) + r2.2 =~= st.2 + (r1.2 + r2.2));
}

/// Streaming law over any number of pushes: pushing the chunks one after
/// another into a parser leaves it exactly as pushing their concatenation
/// at once.
pub proof fn lemma_push_all(st: (Seq<u8>, bool, Seq<Seq<i16>>), chunks: Seq<Seq<u8>>)
    requires
        parser_state_valid(st.0, st.1, st.2),
    ensures
        push_all(st, chunks) == parse_then(st, concat_chunks(chunks)),
    decreases chunks.len(),
{
    if chunks.len() == 0 {
        lemma_push_nothing(st.0, st.1);
        assert(st.2 + Seq::<Seq<i16>>::empty() =~= st.2);
    } else {
        lemma_push_all(st, chunks.drop_last());
        lemma_parse_then_concat(st, concat_chunks(chunks.drop_last()), chunks.last());
    }
}

/// Session law of the parser: starting from a new parser and pushing the
/// chunks one after another, the bursts completed (and so all bursts
/// drained, in order) are exactly the bursts of the whole byte stream, and
/// the parser is left as if the stream had arrived in one piece.
pub proof fn lemma_pushes_from_new(chunks: Seq<Seq<u8>>)
    ensures
        push_all((Seq::<u8>::empty(), false, Seq::<Seq<i16>>::empty()), chunks) == parse_stream(
            concat_chunks(chunks),
            false,
        ),
{
    let st = (Seq::<u8>::empty(), false, Seq::<Seq<i16>>::empty());
    lemma_push_all(st, chunks);
    let s = concat_chunks(chunks);
    assert(Seq::<u8>::empty() + s =~= s);
    let r = parse_stream(s, false);
    assert(Seq::<Seq<i16>>::empty() + r.2 =~= r.2);
}


/// The sync word is the four bytes `AA 55 AA 55`: a sync word starts at `p`
/// exactly when those four bytes stand at `p..p + 4`.
pub proof fn lemma_sync_word(s: Seq<u8>, p: int)
    ensures
        sync_at(s, p) <==> (0 <= p && p + 4 <= s.len() && s.subrange(p, p + 4) == seq![
            0xAAu8,
            0x55u8,
            0xAAu8,
            0x55u8,
        ]),
{
    if 0 <= p && p + 4 <= s.len() {
        let w = s.subrange(p, p + 4);
        if w == seq![0xAAu8, 0x55u8, 0xAAu8, 0x55u8] {
            assert(w[0] == s[p] && w[1] == s[p + 1] && w[2] == s[p + 2] && w[3] == s[p + 3]);
        }
        if sync_at(s, p) {
            assert(w =~= seq![0xAAu8, 0x55u8, 0xAAu8, 0x55u8]);
        }
    }
}

/// Little-endian decoding: the low byte first, then the high byte, read as a
/// two's complement 16-bit value.
pub proof fn lemma_le_i16_value(lo: u8, hi: u8)
    ensures
        le_i16(lo, hi) as int == lo as int + 256 * (hi as int) - (if hi >= 128 {
            65536int
        } else {
            0int
        }),
{
}

/// Frames in sequence: two frames sent back to back give their two bursts,
/// in order, and leave the parser hunting with nothing buffered.
pub proof fn lemma_frames_in_sequence(a: Seq<i16>, b: Seq<i16>)
    requires
        a.len() == BURST_SAMPLES,
        b.len() == BURST_SAMPLES,
    ensures
        parse_stream(frame_bytes(a) + frame_bytes(b), false) == (
            Seq::<u8>::empty(),
            false,
            seq![a, b],
        ),
{
    lemma_parse_concat(frame_bytes(a), frame_bytes(b), false);
    lemma_frame_roundtrip(a);
    lemma_frame_roundtrip(b);
    assert(Seq::<u8>::empty() + frame_bytes(b) =~= frame_bytes(b));
    assert(seq![a] + seq![b] =~= seq![a, b]);
}

} // verus!

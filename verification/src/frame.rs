use vstd::prelude::*;
use crate::codec::{be_hi, be_lo, be_u16, pulse_bytes, pulse_of_bytes, Bit};
use crate::error::Error;

verus! {

/// A 64-byte frame holding `front` and zero padding after it.
pub open spec fn frame_spec(front: Seq<u8>) -> Seq<u8>
    recommends
        front.len() <= 64,
{
    Seq::new(64, |i: int| if i < front.len() { front[i] } else { 0u8 })
}

/// The wire bytes of the first `n` pulses of a chunk, 4 bytes each.
pub open spec fn chunk_bytes(chunk: Seq<Bit>, n: int) -> Seq<u8>
    recommends
        0 <= n <= chunk.len(),
    decreases n,
{
    if n <= 0 {
        Seq::empty()
    } else {
        chunk_bytes(chunk, n - 1) + pulse_bytes(chunk[n - 1])
    }
}

/// The first `n` pulses occupy exactly `4 * n` wire bytes.
pub proof fn lemma_chunk_bytes_len(chunk: Seq<Bit>, n: int)
    requires
        0 <= n <= chunk.len(),
    ensures
        chunk_bytes(chunk, n).len() == 4 * n,
    decreases n,
{
    if n > 0 {
        lemma_chunk_bytes_len(chunk, n - 1);
    }
}

/// The request arming the receiver: command 0x31 and the big-endian
/// carrier frequency.
pub open spec fn recv_start_spec(freq: u16) -> Seq<u8> {
    frame_spec(seq![0x31u8, be_hi(freq), be_lo(freq)])
}

/// The request stopping the capture: command 0x32, no payload.
pub open spec fn recv_stop_spec() -> Seq<u8> {
    frame_spec(seq![0x32u8])
}

/// The request polling one captured chunk: command 0x33, no payload.
pub open spec fn poll_spec() -> Seq<u8> {
    frame_spec(seq![0x33u8])
}

/// The request uploading one playback chunk: command 0x34, big-endian
/// total and offset, the pulse count, then the inlined pulses.
pub open spec fn data_frame_spec(total: u16, offset: u16, chunk: Seq<Bit>) -> Seq<u8>
    recommends
        chunk.len() <= 14,
{
    frame_spec(
        seq![0x34u8, be_hi(total), be_lo(total), be_hi(offset), be_lo(offset), chunk.len() as u8]
            + chunk_bytes(chunk, chunk.len() as int),
    )
}

/// The request starting playback: command 0x35, big-endian carrier
/// frequency and total pulse count.
pub open spec fn transmit_spec(freq: u16, total: u16) -> Seq<u8> {
    frame_spec(seq![0x35u8, be_hi(freq), be_lo(freq), be_hi(total), be_lo(total)])
}

/// The request querying the firmware version: command 0x56, no payload.
pub open spec fn version_spec() -> Seq<u8> {
    frame_spec(seq![0x56u8])
}

/// Builds the capture-start request for one carrier frequency.
pub fn recv_start_frame(freq: u16) -> (r: [u8; 64])
    ensures
        r@ == recv_start_spec(freq),
{
    let mut f = [0u8; 64];
    f[0] = 0x31;
    let (hi, lo) = crate::codec::encode_u16(freq);
    f[1] = hi;
    f[2] = lo;
    proof {
        assert(f@ =~= recv_start_spec(freq));
    }
    f
}

/// Builds the capture-stop request.
pub fn recv_stop_frame() -> (r: [u8; 64])
    ensures
        r@ == recv_stop_spec(),
{
    let mut f = [0u8; 64];
    f[0] = 0x32;
    proof {
        assert(f@ =~= recv_stop_spec());
    }
    f
}

/// Builds the chunk-poll request.
pub fn poll_frame() -> (r: [u8; 64])
    ensures
        r@ == poll_spec(),
{
    let mut f = [0u8; 64];
    f[0] = 0x33;
    proof {
        assert(f@ =~= poll_spec());
    }
    f
}

/// Builds the playback-start request for one carrier frequency and
/// total pulse count.
pub fn transmit_frame(freq: u16, total: u16) -> (r: [u8; 64])
    ensures
        r@ == transmit_spec(freq, total),
{
    let mut f = [0u8; 64];
    f[0] = 0x35;
    let (fhi, flo) = crate::codec::encode_u16(freq);
    let (thi, tlo) = crate::codec::encode_u16(total);
    f[1] = fhi;
    f[2] = flo;
    f[3] = thi;
    f[4] = tlo;
    proof {
        assert(f@ =~= transmit_spec(freq, total));
    }
    f
}

/// Builds the firmware-version request.
pub fn version_frame() -> (r: [u8; 64])
    ensures
        r@ == version_spec(),
{
    let mut f = [0u8; 64];
    f[0] = 0x56;
    proof {
        assert(f@ =~= version_spec());
    }
    f
}

/// Builds one playback data frame carrying up to 14 pulses.
pub fn data_frame(total: u16, offset: u16, chunk: &[Bit]) -> (r: [u8; 64])
    requires
        chunk@.len() <= 14,
    ensures
        r@ == data_frame_spec(total, offset, chunk@),
{
    let mut f = [0u8; 64];
    f[0] = 0x34;
    let (thi, tlo) = crate::codec::encode_u16(total);
    let (ohi, olo) = crate::codec::encode_u16(offset);
    f[1] = thi;
    f[2] = tlo;
    f[3] = ohi;
    f[4] = olo;
    let len = chunk.len();
    f[5] = len as u8;
    let ghost hdr = seq![
        0x34u8,
        be_hi(total),
        be_lo(total),
        be_hi(offset),
        be_lo(offset),
        chunk@.len() as u8,
    ];
    proof {
        assert(f@ =~= frame_spec(hdr + chunk_bytes(chunk@, 0)));
    }
    let mut p: usize = 0;
    while p < len
        invariant
            p <= len,
            len == chunk@.len() <= 14,
            hdr == seq![
                0x34u8,
                be_hi(total),
                be_lo(total),
                be_hi(offset),
                be_lo(offset),
                chunk@.len() as u8,
            ],
            f@ == frame_spec(hdr + chunk_bytes(chunk@, p as int)),
        decreases len - p,
    {
        proof {
            lemma_chunk_bytes_len(chunk@, p as int);
            lemma_chunk_bytes_len(chunk@, p + 1);
        }
        let bit = chunk[p];
        let (onh, onl) = crate::codec::encode_u16(bit.on);
        let (offh, offl) = crate::codec::encode_u16(bit.off);
        f[6 + 4 * p] = onh;
        f[7 + 4 * p] = onl;
        f[8 + 4 * p] = offh;
        f[9 + 4 * p] = offl;
        proof {
            assert(f@ =~= frame_spec(hdr + chunk_bytes(chunk@, p + 1)));
        }
        p += 1;
    }
    proof {
        assert(f@ =~= data_frame_spec(total, offset, chunk@));
    }
    f
}

/// The pulse count a poll response announces, capped at the 14 pulses a
/// frame can actually carry.
pub open spec fn resp_count(f: Seq<u8>) -> int {
    if f[5] <= 14 {
        f[5] as int
    } else {
        14
    }
}

/// The pulses inlined in a poll response, decoded 4 bytes each from
/// byte 6 on.
pub open spec fn resp_pulses(f: Seq<u8>) -> Seq<Bit> {
    Seq::new(resp_count(f) as nat, |i: int| pulse_of_bytes(f.subrange(6 + 4 * i, 10 + 4 * i)))
}

/// Parses one poll response into its announced total, its offset and
/// its inlined pulses.
pub fn parse_poll(f: &[u8; 64]) -> (r: (u16, u16, Vec<Bit>))
    ensures
        r.0 == be_u16(f@[1], f@[2]),
        r.1 == be_u16(f@[3], f@[4]),
        r.2@ == resp_pulses(f@),
{
    let total = crate::codec::decode_u16(f[1], f[2]);
    let offset = crate::codec::decode_u16(f[3], f[4]);
    let count: usize = if f[5] > 14 {
        14
    } else {
        f[5] as usize
    };
    let mut pulses: Vec<Bit> = Vec::new();
    let mut i: usize = 0;
    while i < count
        invariant
            i <= count,
            count == resp_count(f@),
            pulses@ == resp_pulses(f@).take(i as int),
        decreases count - i,
    {
        let on = crate::codec::decode_u16(f[6 + 4 * i], f[7 + 4 * i]);
        let off = crate::codec::decode_u16(f[8 + 4 * i], f[9 + 4 * i]);
        let p = Bit { on, off };
        proof {
            let sub = f@.subrange(6 + 4 * i, 10 + 4 * i);
            assert(sub[0] == f@[6 + 4 * i as int]);
            assert(sub[1] == f@[7 + 4 * i as int]);
            assert(sub[2] == f@[8 + 4 * i as int]);
            assert(sub[3] == f@[9 + 4 * i as int]);
            assert(p == resp_pulses(f@)[i as int]);
            assert(resp_pulses(f@).take(i + 1) =~= resp_pulses(f@).take(i as int) + seq![
                resp_pulses(f@)[i as int],
            ]);
        }
        pulses.push(p);
        i += 1;
    }
    proof {
        assert(pulses@ =~= resp_pulses(f@));
    }
    (total, offset, pulses)
}

/// Echo validation: a response is accepted exactly when its first byte
/// equals the request's command byte; otherwise it is rejected whole.
pub fn check_echo(request0: u8, response: [u8; 64]) -> (r: Result<[u8; 64], Error>)
    ensures
        response@[0] == request0 ==> r == Ok::<[u8; 64], Error>(response),
        response@[0] != request0 ==> r == Err::<[u8; 64], Error>(
            Error::UnexpectedCode { actual: response@[0], expected: request0 },
        ),
{
    if response[0] == request0 {
        Ok(response)
    } else {
        Err(Error::UnexpectedCode { actual: response[0], expected: request0 })
    }
}

/// How many data frames the write protocol needs for `len` pulses: 14
/// per frame, rounded up; none for an empty signal.
pub open spec fn chunk_count(len: int) -> int {
    (len + 13) / 14
}

/// Chunk `r` of a pulse sequence under the write protocol.
pub open spec fn chunk_of(s: Seq<Bit>, r: int) -> Seq<Bit>
    recommends
        0 <= r < chunk_count(s.len() as int),
{
    s.subrange(14 * r, if 14 * r + 14 <= s.len() { 14 * r + 14 } else { s.len() as int })
}

/// `buf` with `chunk` written over it starting at `offset`.
pub open spec fn apply_chunk(buf: Seq<Bit>, offset: int, chunk: Seq<Bit>) -> Seq<Bit>
    recommends
        0 <= offset,
        offset + chunk.len() <= buf.len(),
{
    Seq::new(
        buf.len(),
        |j: int|
            if offset <= j < offset + chunk.len() {
                chunk[j - offset]
            } else {
                buf[j]
            },
    )
}

/// `buf` after the first `n` write-protocol chunks of `s` are applied
/// at their own offsets, as the read protocol does.
pub open spec fn apply_chunks(buf: Seq<Bit>, s: Seq<Bit>, n: int) -> Seq<Bit>
    decreases n,
{
    if n <= 0 {
        buf
    } else {
        apply_chunk(apply_chunks(buf, s, n - 1), 14 * (n - 1), chunk_of(s, n - 1))
    }
}

/// After the first `n` chunks, the buffer matches `s` below `14 * n`
/// and is untouched above it.
pub proof fn lemma_apply_chunks_partial(buf: Seq<Bit>, s: Seq<Bit>, n: int)
    requires
        buf.len() == s.len(),
        0 <= n <= chunk_count(s.len() as int),
    ensures
        apply_chunks(buf, s, n).len() == buf.len(),
        forall|j: int| 0 <= j < 14 * n && j < s.len() ==> apply_chunks(buf, s, n)[j] == s[j],
        forall|j: int| 14 * n <= j < s.len() ==> apply_chunks(buf, s, n)[j] == buf[j],
    decreases n,
{
    if n > 0 {
        lemma_apply_chunks_partial(buf, s, n - 1);
    }
}

/// Chunked reconstruction: splitting any pulse sequence into the write
/// protocol's chunks of at most 14 pulses and applying them in order to
/// any buffer of the same length — in particular the zero-initialized
/// buffer the read protocol allocates — rebuilds the sequence exactly,
/// order preserved. This covers the empty sequence, which has no data
/// chunks at all.
pub proof fn lemma_chunked_reconstruction(buf: Seq<Bit>, s: Seq<Bit>)
    requires
        buf.len() == s.len(),
    ensures
        apply_chunks(buf, s, chunk_count(s.len() as int)) == s,
{
    let n = chunk_count(s.len() as int);
    lemma_apply_chunks_partial(buf, s, n);
    assert(14 * n >= s.len());
    assert(apply_chunks(buf, s, n) =~= s);
}

/// Writes a chunk of pulses into a capture buffer at its frame's offset.
pub fn apply_chunk_vec(buf: &mut Vec<Bit>, offset: usize, chunk: &Vec<Bit>)
    requires
        offset + chunk@.len() <= old(buf)@.len(),
    ensures
        final(buf)@ == apply_chunk(old(buf)@, offset as int, chunk@),
{
    let cap = buf.len();
    let mut i: usize = 0;
    while i < chunk.len()
        invariant
            i <= chunk@.len(),
            cap == buf@.len(),
            buf@.len() == old(buf)@.len(),
            offset + chunk@.len() <= buf@.len(),
            forall|j: int| 0 <= j < i ==> buf@[offset + j] == chunk@[j],
            forall|j: int|
                0 <= j < buf@.len() && !(offset <= j < offset + i) ==> buf@[j] == old(buf)@[j],
        decreases chunk@.len() - i,
    {
        buf[offset + i] = chunk[i];
        i += 1;
    }
    proof {
        assert(buf@ =~= apply_chunk(old(buf)@, offset as int, chunk@));
    }
}

/// Allocates a zero-initialized capture buffer of `n` pulses.
pub fn zero_pulses(n: usize) -> (r: Vec<Bit>)
    ensures
        r@.len() == n,
        forall|j: int| 0 <= j < n ==> r@[j] == (Bit { on: 0, off: 0 }),
{
    let mut out: Vec<Bit> = Vec::new();
    let mut i: usize = 0;
    while i < n
        invariant
            i <= n,
            out@.len() == i,
            forall|j: int| 0 <= j < i ==> out@[j] == (Bit { on: 0, off: 0 }),
        decreases n - i,
    {
        out.push(Bit { on: 0, off: 0 });
        i += 1;
    }
    out
}


/// Whether every byte is ASCII, i.e. below 0x80.
pub open spec fn all_ascii(s: Seq<u8>) -> bool {
    forall|i: int| 0 <= i < s.len() ==> s[i] < 0x80
}

/// The text carried by a sequence of ASCII bytes.
pub open spec fn ascii_chars(s: Seq<u8>) -> Seq<char> {
    s.map_values(|b: u8| b as char)
}

/// Index of the first zero byte of `s`, or `s.len()` when it has none.
pub open spec fn first_nul(s: Seq<u8>) -> int
    decreases s.len(),
{
    if s.len() == 0 {
        0
    } else if s[0] == 0 {
        0
    } else {
        1 + first_nul(s.subrange(1, s.len() as int))
    }
}

/// Characterization of `first_nul`: it is the unique index with only
/// nonzero bytes before it and a zero byte (or the end) at it.
pub proof fn lemma_first_nul_is(s: Seq<u8>, i: int)
    requires
        0 <= i <= s.len(),
        forall|j: int| 0 <= j < i ==> s[j] != 0,
        i == s.len() || s[i] == 0,
    ensures
        first_nul(s) == i,
    decreases s.len(),
{
    if s.len() == 0 {
    } else if s[0] == 0 {
        assert(i == 0);
    } else {
        assert(i >= 1);
        let tail = s.subrange(1, s.len() as int);
        assert(forall|j: int| 0 <= j < i - 1 ==> tail[j] == s[j + 1] && tail[j] != 0);
        assert(i - 1 == tail.len() || tail[i - 1] == 0);
        lemma_first_nul_is(tail, i - 1);
    }
}

/// The firmware-version payload of a response frame: bytes 1..64
/// truncated at the first zero byte.
pub open spec fn version_bytes(f: Seq<u8>) -> Seq<u8> {
    let body = f.subrange(1, 64);
    body.take(first_nul(body))
}

/// Relies on alloc's String::from_utf8: ASCII bytes decode to exactly
/// their own characters, and invalid UTF-8 is refused, not panicked on.
#[verifier::external_body]
fn utf8_to_string(bytes: Vec<u8>) -> (r: Option<String>)
    ensures
        all_ascii(bytes@) ==> r is Some,
        r matches Some(s) ==> (all_ascii(bytes@) ==> s@ == ascii_chars(bytes@)),
{
    String::from_utf8(bytes).ok()
}

/// Parses the firmware version out of a response frame: the ASCII text
/// of bytes 1..64 up to the first zero byte, or Error::Encoding when a
/// byte before the terminator is not ASCII.
pub fn parse_version(f: &[u8; 64]) -> (r: Result<String, Error>)
    ensures
        all_ascii(version_bytes(f@)) ==> (r matches Ok(s) && s@ == ascii_chars(version_bytes(f@))),
        !all_ascii(version_bytes(f@)) ==> r == Err::<String, Error>(Error::Encoding),
{
    let ghost body = f@.subrange(1, 64);
    let mut end: usize = 1;
    while end < 64 && f[end] != 0
        invariant
            1 <= end <= 64,
            forall|j: int| 1 <= j < end ==> f@[j] != 0,
        decreases 64 - end,
    {
        end += 1;
    }
    proof {
        assert(forall|j: int| 0 <= j < end - 1 ==> body[j] == f@[j + 1] && body[j] != 0);
        assert(end - 1 == body.len() || body[end - 1] == 0);
        lemma_first_nul_is(body, end - 1);
        assert(version_bytes(f@) == body.take(end - 1));
    }
    let mut v: Vec<u8> = Vec::new();
    let mut j: usize = 1;
    while j < end
        invariant
            1 <= j <= end <= 64,
            body == f@.subrange(1, 64),
            version_bytes(f@) == body.take(end - 1),
            v@.len() == j - 1,
            forall|k: int| 0 <= k < j - 1 ==> v@[k] == f@[k + 1] && v@[k] < 0x80,
        decreases end - j,
    {
        let b = f[j];
        if b >= 0x80 {
            proof {
                assert(version_bytes(f@)[j - 1] == body[j - 1]);
                assert(body[j - 1] == f@[j as int]);
                assert(!all_ascii(version_bytes(f@)));
            }
            return Err(Error::Encoding);
        }
        v.push(b);
        j += 1;
    }
    proof {
        assert(v@ =~= body.take(end - 1));
        assert(all_ascii(v@));
    }
    match utf8_to_string(v) {
        Some(s) => Ok(s),
        None => Err(Error::Encoding),
    }
}


/// The exact data frames the write protocol issues for the first `n`
/// chunks of a pulse sequence.
pub open spec fn data_frames(s: Seq<Bit>, n: int) -> Seq<Seq<u8>>
    recommends
        s.len() <= u16::MAX,
        0 <= n <= chunk_count(s.len() as int),
    decreases n,
{
    if n <= 0 {
        Seq::empty()
    } else {
        data_frames(s, n - 1).push(
            data_frame_spec(s.len() as u16, (14 * (n - 1)) as u16, chunk_of(s, n - 1)),
        )
    }
}

/// Every frame the write protocol issues for a pulse sequence: one data
/// frame per chunk of at most 14 pulses, offsets advancing by 14, then
/// always the zero-count end marker — the only frame when the sequence
/// is empty.
pub open spec fn write_frames(s: Seq<Bit>) -> Seq<Seq<u8>>
    recommends
        s.len() <= u16::MAX,
{
    data_frames(s, chunk_count(s.len() as int)).push(
        data_frame_spec(s.len() as u16, s.len() as u16, Seq::empty()),
    )
}

/// Whether a poll response is the end marker that completes a transfer:
/// it announces total 0 or carries no pulses.
pub open spec fn is_end_frame(f: Seq<u8>) -> bool
    recommends
        f.len() == 64,
{
    be_u16(f[1], f[2]) == 0 || resp_count(f) == 0
}

/// One drain step: the buffer after a non-end poll response is taken in
/// (allocated zeroed to the announced total on the first data frame),
/// or None when the response breaks the chunking invariants — a total
/// that differs from the buffer's length, or a chunk past its end.
pub open spec fn drain_once(buf: Seq<Bit>, started: bool, f: Seq<u8>) -> Option<Seq<Bit>>
    recommends
        f.len() == 64,
        !is_end_frame(f),
{
    let total = be_u16(f[1], f[2]) as int;
    let offset = be_u16(f[3], f[4]) as int;
    let base = if started {
        buf
    } else {
        Seq::new(total as nat, |j: int| Bit { on: 0, off: 0 })
    };
    if base.len() == total && offset + resp_count(f) <= total {
        Some(apply_chunk(base, offset, resp_pulses(f)))
    } else {
        None
    }
}

/// The drain state after a run of poll responses none of which ended the
/// transfer: the buffer under assembly and whether it was allocated;
/// None when a response ended the transfer or broke the invariants.
pub open spec fn drain_pending(buf: Seq<Bit>, started: bool, responses: Seq<Seq<u8>>) -> Option<
    (Seq<Bit>, bool),
>
    decreases responses.len(),
{
    if responses.len() == 0 {
        Some((buf, started))
    } else if is_end_frame(responses[0]) {
        None
    } else {
        match drain_once(buf, started, responses[0]) {
            Some(b) => drain_pending(b, true, responses.drop_first()),
            None => None,
        }
    }
}

/// The read protocol's result for a run of poll responses: the drain
/// takes them in order and the first end marker completes the capture
/// with the buffer assembled so far; None when a response breaks the
/// invariants, or no end marker ever comes.
pub open spec fn drain_from(buf: Seq<Bit>, started: bool, responses: Seq<Seq<u8>>) -> Option<
    Seq<Bit>,
>
    decreases responses.len(),
{
    if responses.len() == 0 {
        None
    } else if is_end_frame(responses[0]) {
        Some(buf)
    } else {
        match drain_once(buf, started, responses[0]) {
            Some(b) => drain_from(b, true, responses.drop_first()),
            None => None,
        }
    }
}

/// Extending a pending drain by one non-end response steps it by
/// exactly `drain_once`.
pub proof fn lemma_drain_pending_push(
    buf0: Seq<Bit>,
    started0: bool,
    rs: Seq<Seq<u8>>,
    buf: Seq<Bit>,
    started: bool,
    f: Seq<u8>,
)
    requires
        drain_pending(buf0, started0, rs) == Some((buf, started)),
        !is_end_frame(f),
    ensures
        drain_once(buf, started, f) matches Some(b) ==> drain_pending(buf0, started0, rs.push(f))
            == Some((b, true)),
        drain_once(buf, started, f) is None ==> drain_pending(buf0, started0, rs.push(f)) is None,
    decreases rs.len(),
{
    if rs.len() == 0 {
        assert(rs.push(f)[0] == f);
        assert(rs.push(f).drop_first() =~= Seq::<Seq<u8>>::empty());
        assert(buf == buf0 && started == started0);
        if drain_once(buf, started, f) is Some {
            let b = drain_once(buf, started, f).unwrap();
            assert(drain_pending(b, true, Seq::<Seq<u8>>::empty()) == Some((b, true)));
        }
    } else {
        assert(rs.push(f)[0] == rs[0]);
        assert(rs.push(f).drop_first() =~= rs.drop_first().push(f));
        let step = drain_once(buf0, started0, rs[0]);
        lemma_drain_pending_push(step.unwrap(), true, rs.drop_first(), buf, started, f);
    }
}

/// Extending a pending drain by an end marker completes it with the
/// buffer assembled so far.
pub proof fn lemma_drain_from_end(
    buf0: Seq<Bit>,
    started0: bool,
    rs: Seq<Seq<u8>>,
    buf: Seq<Bit>,
    started: bool,
    f: Seq<u8>,
)
    requires
        drain_pending(buf0, started0, rs) == Some((buf, started)),
        is_end_frame(f),
    ensures
        drain_from(buf0, started0, rs.push(f)) == Some(buf),
    decreases rs.len(),
{
    if rs.len() == 0 {
        assert(rs.push(f)[0] == f);
    } else {
        assert(rs.push(f)[0] == rs[0]);
        assert(rs.push(f).drop_first() =~= rs.drop_first().push(f));
        let step = drain_once(buf0, started0, rs[0]);
        lemma_drain_from_end(step.unwrap(), true, rs.drop_first(), buf, started, f);
    }
}

/// Takes one poll response into the capture buffer: the end marker
/// (total 0 or no pulses) completes the drain and leaves the buffer
/// alone; a data chunk allocates the buffer zeroed to the announced
/// total on first use and writes its pulses at its offset; a response
/// that changes the total or overruns the buffer is refused as
/// Error::Encoding with the buffer unchanged.
pub fn drain_response(bits: &mut Vec<Bit>, started: bool, resp: &[u8; 64]) -> (r: Result<
    bool,
    Error,
>)
    ensures
        is_end_frame(resp@) ==> r == Ok::<bool, Error>(true) && final(bits)@ == old(bits)@,
        !is_end_frame(resp@) ==> (drain_once(old(bits)@, started, resp@) matches Some(b) ==> (r
            == Ok::<bool, Error>(false) && final(bits)@ == b)),
        (!is_end_frame(resp@) && drain_once(old(bits)@, started, resp@) is None) ==> (r
            == Err::<bool, Error>(Error::Encoding) && final(bits)@ == old(bits)@),
        final(bits)@.len() <= u16::MAX || final(bits)@ == old(bits)@,
{
    let (total, offset, pulses) = parse_poll(resp);
    if total == 0 || pulses.len() == 0 {
        return Ok(true);
    }
    let total_len = total as usize;
    let off = offset as usize;
    if started && bits.len() != total_len {
        return Err(Error::Encoding);
    }
    if off + pulses.len() > total_len {
        return Err(Error::Encoding);
    }
    if !started {
        *bits = zero_pulses(total_len);
    }
    apply_chunk_vec(bits, off, &pulses);
    Ok(false)
}


/// Among the wire bytes of a chunk, byte `m` of pulse `i` stands at
/// index `4 * i + m`.
pub proof fn lemma_chunk_bytes_index(chunk: Seq<Bit>, n: int, i: int, m: int)
    requires
        0 <= n <= chunk.len(),
        0 <= i < n,
        0 <= m < 4,
    ensures
        chunk_bytes(chunk, n)[4 * i + m] == pulse_bytes(chunk[i])[m],
    decreases n,
{
    lemma_chunk_bytes_len(chunk, n - 1);
    if i < n - 1 {
        lemma_chunk_bytes_index(chunk, n - 1, i, m);
    }
}

/// A data frame parses back to exactly what it was built from: the
/// total, the offset, and the inlined pulses.
pub proof fn lemma_data_frame_fields(total: u16, offset: u16, chunk: Seq<Bit>)
    requires
        chunk.len() <= 14,
    ensures
        data_frame_spec(total, offset, chunk).len() == 64,
        be_u16(data_frame_spec(total, offset, chunk)[1], data_frame_spec(total, offset, chunk)[2])
            == total,
        be_u16(data_frame_spec(total, offset, chunk)[3], data_frame_spec(total, offset, chunk)[4])
            == offset,
        resp_count(data_frame_spec(total, offset, chunk)) == chunk.len(),
        resp_pulses(data_frame_spec(total, offset, chunk)) == chunk,
{
    let f = data_frame_spec(total, offset, chunk);
    let len = chunk.len() as int;
    lemma_chunk_bytes_len(chunk, len);
    crate::codec::lemma_be_round_trip(total);
    crate::codec::lemma_be_round_trip(offset);
    assert(f[5] == chunk.len() as u8);
    assert(resp_count(f) == len);
    assert forall|i: int| 0 <= i < len implies resp_pulses(f)[i] == chunk[i] by {
        let sub = f.subrange(6 + 4 * i, 10 + 4 * i);
        assert forall|m: int| 0 <= m < 4 implies sub[m] == pulse_bytes(chunk[i])[m] by {
            lemma_chunk_bytes_index(chunk, len, i, m);
            assert(sub[m] == f[6 + 4 * i + m]);
            assert(f[6 + 4 * i + m] == chunk_bytes(chunk, len)[4 * i + m]);
        };
        assert(sub =~= pulse_bytes(chunk[i]));
        crate::codec::lemma_pulse_round_trip(chunk[i]);
    };
    assert(resp_pulses(f) =~= chunk);
}

/// The zero-initialized buffer the read protocol allocates.
pub open spec fn zero_buf(n: nat) -> Seq<Bit> {
    Seq::new(n, |j: int| Bit { on: 0, off: 0 })
}

/// Draining the first `n` data frames of the write protocol assembles
/// exactly the first `n` chunks onto the zeroed buffer.
pub proof fn lemma_drain_data_frames(s: Seq<Bit>, n: int)
    requires
        0 < s.len() <= u16::MAX,
        0 <= n <= chunk_count(s.len() as int),
    ensures
        n == 0 ==> drain_pending(Seq::empty(), false, data_frames(s, n)) == Some(
            (Seq::<Bit>::empty(), false),
        ),
        n > 0 ==> drain_pending(Seq::empty(), false, data_frames(s, n)) == Some(
            (apply_chunks(zero_buf(s.len()), s, n), true),
        ),
    decreases n,
{
    let len = s.len() as int;
    if n == 0 {
        assert(data_frames(s, 0) =~= Seq::<Seq<u8>>::empty());
    } else {
        lemma_drain_data_frames(s, n - 1);
        lemma_apply_chunks_partial(zero_buf(s.len()), s, n - 1);
        let f = data_frame_spec(s.len() as u16, (14 * (n - 1)) as u16, chunk_of(s, n - 1));
        lemma_data_frame_fields(s.len() as u16, (14 * (n - 1)) as u16, chunk_of(s, n - 1));
        assert(14 * (n - 1) < len);
        assert(chunk_of(s, n - 1).len() > 0);
        assert(!is_end_frame(f));
        let base = if n - 1 == 0 {
            Seq::<Bit>::empty()
        } else {
            apply_chunks(zero_buf(s.len()), s, n - 1)
        };
        let started = n - 1 > 0;
        assert(drain_once(base, started, f) == Some(apply_chunks(zero_buf(s.len()), s, n))) by {
            assert(apply_chunks(zero_buf(s.len()), s, n - 1).len() == len);
            if !started {
                assert(apply_chunks(zero_buf(s.len()), s, 0) =~= zero_buf(s.len()));
                assert(Seq::new((s.len() as u16) as nat, |j: int| Bit { on: 0, off: 0 })
                    =~= zero_buf(s.len()));
            }
        };
        lemma_drain_pending_push(Seq::empty(), false, data_frames(s, n - 1), base, started, f);
    }
}

/// Write/read round trip of the transfer protocol: feeding the exact
/// frames the write protocol issues for any pulse sequence — data
/// chunks of at most 14 pulses, then the zero-count end marker — back
/// through the read protocol's drain reconstructs that sequence
/// completely, order preserved, for every length including zero. (The
/// drain reads only bytes 1.. of each response, so the request/response
/// command byte plays no part here.)
pub proof fn lemma_write_read_round_trip(s: Seq<Bit>)
    requires
        s.len() <= u16::MAX,
    ensures
        drain_from(Seq::empty(), false, write_frames(s)) == Some(s),
{
    let len = s.len() as int;
    let n = chunk_count(len);
    let end = data_frame_spec(s.len() as u16, s.len() as u16, Seq::empty());
    lemma_data_frame_fields(s.len() as u16, s.len() as u16, Seq::empty());
    assert(is_end_frame(end));
    if s.len() == 0 {
        assert(n == 0);
        assert(data_frames(s, 0) =~= Seq::<Seq<u8>>::empty());
        lemma_drain_from_end(Seq::empty(), false, data_frames(s, 0), Seq::empty(), false, end);
        assert(s =~= Seq::<Bit>::empty());
    } else {
        lemma_drain_data_frames(s, n);
        lemma_chunked_reconstruction(zero_buf(s.len()), s);
        lemma_drain_from_end(
            Seq::empty(),
            false,
            data_frames(s, n),
            apply_chunks(zero_buf(s.len()), s, n),
            true,
            end,
        );
    }
}

} // verus!

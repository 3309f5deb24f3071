//! The finality proof and its wire format.
//!
//! A proof is written as the hash of the justified block, the justification
//! as a length-prefixed byte string, and the unknown headers as a
//! length-prefixed sequence, each header in the chain's own encoding and
//! nothing between them. Where one header ends and the next begins is for the
//! chain's header format to say.

use crate::compact::{
    compact_bytes,
    compact_value,
    compact_width,
    lemma_compact_round_trip,
    lemma_decoded_is_canonical,
    lemma_compact_width,
    read_compact,
    write_compact,
};
use vstd::prelude::*;

verus! {

/// The number of bytes in a block hash.
pub const HASH_LEN: usize = 32;

/// The hash that identifies a block.
pub type BlockHash = [u8; 32];

/// A block header in the chain's own encoding.
pub type EncodedHeader = Vec<u8>;

/// Finality of a block B is proved by the justification of a descendant F
/// and the headers that lead from B to F.
#[derive(Debug, PartialEq, Eq, Clone)]
pub struct FinalityProof {
    /// The hash of block F for which the justification is provided.
    pub block: BlockHash,
    /// The encoded justification of block F.
    pub justification: Vec<u8>,
    /// The headers of the blocks after B up to and including F, earliest
    /// first.
    pub unknown_headers: Vec<EncodedHeader>,
}

/// A finality proof as plain data.
pub struct ProofData {
    pub block: Seq<u8>,
    pub justification: Seq<u8>,
    pub unknown_headers: Seq<Seq<u8>>,
}

/// The headers held in `headers`, each as its bytes.
pub open spec fn header_bytes(headers: Seq<EncodedHeader>) -> Seq<Seq<u8>> {
    Seq::new(headers.len(), |i: int| headers[i]@)
}

impl View for FinalityProof {
    type V = ProofData;

    open spec fn view(&self) -> ProofData {
        ProofData {
            block: self.block@,
            justification: self.justification@,
            unknown_headers: header_bytes(self.unknown_headers@),
        }
    }
}

/// The proof can be written: its hash has the length of a hash, and both
/// length prefixes fit in 32 bits.
pub open spec fn encodable(data: ProofData) -> bool {
    &&& data.block.len() == HASH_LEN
    &&& data.justification.len() <= u32::MAX
    &&& data.unknown_headers.len() <= u32::MAX
}

/// The wire form of a proof.
pub open spec fn encoded(data: ProofData) -> Seq<u8> {
    data.block + compact_bytes(data.justification.len() as u32) + data.justification
        + compact_bytes(data.unknown_headers.len() as u32) + data.unknown_headers.flatten()
}

/// What the front of an encoded proof holds: all but the headers themselves.
pub struct ProofFront {
    pub block: Seq<u8>,
    pub justification: Seq<u8>,
    /// The number of headers that follow.
    pub header_count: u32,
    /// Where in the input the first header begins.
    pub headers_at: int,
}

/// The front of the proof encoded in `input`: the hash, the justification
/// and the header count, where the input holds all three.
pub open spec fn front_of(input: Seq<u8>) -> Option<ProofFront> {
    if input.len() < HASH_LEN {
        None
    } else {
        match compact_value(input.skip(HASH_LEN as int)) {
            None => None,
            Some(length) => {
                let from = HASH_LEN + compact_width(length);
                if from + length > input.len() {
                    None
                } else {
                    match compact_value(input.skip(from + length)) {
                        None => None,
                        Some(count) => Some(
                            ProofFront {
                                block: input.take(HASH_LEN as int),
                                justification: input.subrange(from, from + length),
                                header_count: count,
                                headers_at: from + length + compact_width(count),
                            },
                        ),
                    }
                }
            },
        }
    }
}

/// A chain's header format, as far as reading a proof needs it.
pub trait HeaderFormat {
    /// The number of bytes that the header encoded in `input` from `start`
    /// on takes, or nothing where no header can be decoded there.
    fn encoded_len(input: &Vec<u8>, start: usize) -> Option<usize>;
}

/// Where header `i` begins, when the headers begin at `start` and `frames`
/// gives the length of each header before it.
pub open spec fn header_at(start: int, frames: Seq<Option<usize>>, i: int) -> int
    decreases i,
{
    if i <= 0 {
        start
    } else {
        header_at(start, frames, i - 1) + match frames[i - 1] {
            Some(length) => length as int,
            None => 0,
        }
    }
}

/// Frame `i` gives header `i` a length, not zero, that the input has.
pub open spec fn frame_fits(input_len: int, start: int, frames: Seq<Option<usize>>, i: int) -> bool {
    match frames[i] {
        Some(length) => length > 0 && header_at(start, frames, i) + length <= input_len,
        None => false,
    }
}

/// `frames` gives all `count` headers a place in the input.
pub open spec fn all_framed(input_len: int, start: int, count: int, frames: Seq<Option<usize>>) -> bool {
    &&& frames.len() == count
    &&& forall|i: int| 0 <= i < count ==> #[trigger] frame_fits(input_len, start, frames, i)
}

/// `frames` is a whole run of framing `count` headers: it goes on as long as
/// each frame fits, and ends early only with a frame that does not.
pub open spec fn framing_run(input_len: int, start: int, count: int, frames: Seq<Option<usize>>) -> bool {
    &&& frames.len() <= count
    &&& forall|i: int|
        0 <= i < frames.len() - 1 ==> #[trigger] frame_fits(input_len, start, frames, i)
    &&& frames.len() < count ==> frames.len() > 0 && !frame_fits(
        input_len,
        start,
        frames,
        frames.len() - 1,
    )
}

/// The proof that `input` holds, when the header format frames its headers
/// as `frames` says: nothing where the front does not decode or a header has
/// no place.
pub open spec fn decoded(input: Seq<u8>, frames: Seq<Option<usize>>) -> Option<ProofData> {
    match front_of(input) {
        None => None,
        Some(front) => if all_framed(
            input.len() as int,
            front.headers_at,
            front.header_count as int,
            frames,
        ) {
            Some(
                ProofData {
                    block: front.block,
                    justification: front.justification,
                    unknown_headers: Seq::new(
                        front.header_count as nat,
                        |i: int|
                            input.subrange(
                                header_at(front.headers_at, frames, i),
                                header_at(front.headers_at, frames, i + 1),
                            ),
                    ),
                },
            )
        } else {
            None
        },
    }
}

/// `frames` is what the header format `H` said of the headers in `input`, one
/// after the other, each asked where the one before it ended.
pub open spec fn framed_by<H: HeaderFormat>(input: &Vec<u8>, frames: Seq<Option<usize>>) -> bool {
    match front_of(input@) {
        None => frames.len() == 0,
        Some(front) => {
            &&& framing_run(input@.len() as int, front.headers_at, front.header_count as int, frames)
            &&& forall|i: int|
                0 <= i < frames.len() ==> call_ensures(
                    H::encoded_len,
                    (input, header_at(front.headers_at, frames, i) as usize),
                    #[trigger] frames[i],
                )
        },
    }
}

/// The view of what a decoder returns.
pub open spec fn proof_view(read: Option<FinalityProof>) -> Option<ProofData> {
    match read {
        Some(read) => Some(read@),
        None => None,
    }
}

/// A copy of the bytes of `input` from `from` up to `to`.
fn copy_range(input: &[u8], from: usize, to: usize) -> (out: Vec<u8>)
    requires
        from <= to <= input@.len(),
    ensures
        out@ == input@.subrange(from as int, to as int),
{
    vstd::slice::slice_to_vec(vstd::slice::slice_subrange(input, from, to))
}

/// The hash that the first bytes of `input` hold.
fn read_hash(input: &[u8]) -> (hash: BlockHash)
    requires
        input@.len() >= HASH_LEN,
    ensures
        hash@ == input@.take(HASH_LEN as int),
{
    let mut hash: BlockHash = [0u8; 32];
    let mut i: usize = 0;
    while i < HASH_LEN
        invariant
            i <= HASH_LEN <= input@.len(),
            forall|k: int| 0 <= k < i ==> hash@[k] == input@[k],
        decreases HASH_LEN - i,
    {
        hash[i] = input[i];
        i += 1;
    }
    hash
}

/// Reads the front of the proof in `input`: the hash, the justification, the
/// header count and the place of the first header.
fn read_front(input: &[u8]) -> (out: Option<(BlockHash, Vec<u8>, u32, usize)>)
    ensures
        match out {
            Some((block, justification, count, at)) => front_of(input@) == Some(
                ProofFront {
                    block: block@,
                    justification: justification@,
                    header_count: count,
                    headers_at: at as int,
                },
            ) && at <= input@.len(),
            None => front_of(input@) is None,
        },
{
    if input.len() < HASH_LEN {
        return None;
    }
    let block = read_hash(input);
    let (length, from) = match read_compact(input, HASH_LEN) {
        Some(read) => read,
        None => {
            return None;
        },
    };
    if length as usize > input.len() - from {
        return None;
    }
    let until = from + length as usize;
    let justification = copy_range(input, from, until);
    match read_compact(input, until) {
        Some((count, at)) => Some((block, justification, count, at)),
        None => None,
    }
}

impl FinalityProof {
    /// Whether the proof can be written: whether the lengths of its
    /// justification and of its headers fit the 32-bit prefixes.
    pub fn can_encode(&self) -> (fits: bool)
        ensures
            fits == encodable(self@),
    {
        self.justification.len() <= u32::MAX as usize && self.unknown_headers.len()
            <= u32::MAX as usize
    }

    /// The wire form of the proof.
    pub fn encode(&self) -> (out: Vec<u8>)
        requires
            encodable(self@),
        ensures
            out@ == encoded(self@),
    {
        let mut out: Vec<u8> = Vec::new();
        out.extend_from_slice(self.block.as_slice());
        write_compact(&mut out, self.justification.len() as u32);
        out.extend_from_slice(self.justification.as_slice());
        write_compact(&mut out, self.unknown_headers.len() as u32);
        let ghost front = out@;
        let ghost headers = header_bytes(self.unknown_headers@);
        let mut i: usize = 0;
        while i < self.unknown_headers.len()
            invariant
                i <= self.unknown_headers@.len(),
                headers == header_bytes(self.unknown_headers@),
                out@ == front + headers.take(i as int).flatten(),
            decreases self.unknown_headers@.len() - i,
        {
            proof {
                headers.take(i as int).lemma_flatten_push(headers[i as int]);
                assert(headers.take(i as int).push(headers[i as int]) == headers.take(i + 1));
            }
            out.extend_from_slice(self.unknown_headers[i].as_slice());
            i += 1;
        }
        assert(headers.take(i as int) == headers);
        out
    }

    /// Reads a proof from the front of `input`; what follows the proof is
    /// left unread. The header format `H` says where each header ends.
    ///
    /// The result is what `decoded` gives for the frames that `H` reported:
    /// a proof where the front decodes and every header was given a length,
    /// not zero, that the input has; nothing otherwise.
    pub fn decode<H: HeaderFormat>(input: &Vec<u8>) -> (out: Option<FinalityProof>)
        ensures
            exists|frames: Seq<Option<usize>>| #[trigger]
                framed_by::<H>(input, frames) && proof_view(out) == decoded(input@, frames),
    {
        let (block, justification, count, at) = match read_front(input.as_slice()) {
            Some(front) => front,
            None => {
                assert(framed_by::<H>(input, Seq::empty()));
                return None;
            },
        };
        let ghost front = front_of(input@).unwrap();
        let ghost total = input@.len() as int;
        let ghost mut frames: Seq<Option<usize>> = Seq::empty();
        let mut unknown_headers: Vec<EncodedHeader> = Vec::new();
        let mut start: usize = at;
        let mut i: u32 = 0;
        while i < count
            invariant
                i <= count,
                total == input@.len(),
                front_of(input@) == Some(front),
                front.headers_at == at,
                front.header_count == count,
                frames.len() == i,
                start == header_at(front.headers_at, frames, i as int),
                start <= total,
                forall|k: int| 0 <= k < i ==> #[trigger] frame_fits(total, front.headers_at, frames, k),
                forall|k: int|
                    0 <= k < i ==> call_ensures(
                        H::encoded_len,
                        (input, header_at(front.headers_at, frames, k) as usize),
                        #[trigger] frames[k],
                    ),
                unknown_headers@.len() == i,
                forall|k: int|
                    0 <= k < i ==> (#[trigger] unknown_headers@[k])@ == input@.subrange(
                        header_at(front.headers_at, frames, k),
                        header_at(front.headers_at, frames, k + 1),
                    ),
            decreases count - i,
        {
            let frame = H::encoded_len(input, start);
            let ghost before = frames;
            proof {
                frames = frames.push(frame);
                lemma_header_at_extends(front.headers_at, before, frame);
                assert forall|k: int| 0 <= k < i implies #[trigger] frame_fits(
                    total,
                    front.headers_at,
                    frames,
                    k,
                ) by {
                    assert(frame_fits(total, front.headers_at, before, k));
                }
                assert forall|k: int| 0 <= k <= i implies call_ensures(
                    H::encoded_len,
                    (input, header_at(front.headers_at, frames, k) as usize),
                    #[trigger] frames[k],
                ) by {
                    if k < i {
                        assert(frames[k] == before[k]);
                    }
                }
            }
            let length = match frame {
                Some(length) => length,
                None => 0,
            };
            if length == 0 || length > input.len() - start {
                assert(!frame_fits(total, front.headers_at, frames, i as int));
                assert(framed_by::<H>(input, frames));
                return None;
            }
            unknown_headers.push(copy_range(input.as_slice(), start, start + length));
            start = start + length;
            i += 1;
        }
        let read = FinalityProof { block, justification, unknown_headers };
        proof {
            assert(framed_by::<H>(input, frames));
            assert(read@.unknown_headers =~= decoded(input@, frames).unwrap().unknown_headers);
        }
        Some(read)
    }
}

/// Frames added at the end leave the earlier headers where they were.
proof fn lemma_header_at_extends(start: int, frames: Seq<Option<usize>>, frame: Option<usize>)
    ensures
        forall|k: int| k <= frames.len() ==> header_at(start, frames.push(frame), k) == header_at(
            start,
            frames,
            k,
        ),
{
    assert forall|k: int| k <= frames.len() implies header_at(start, frames.push(frame), k)
        == header_at(start, frames, k) by {
        lemma_header_at_agrees(start, frames, frames.push(frame), k);
    }
}

/// Where header `k` begins depends on the frames before it alone.
proof fn lemma_header_at_agrees(start: int, a: Seq<Option<usize>>, b: Seq<Option<usize>>, k: int)
    requires
        k <= a.len(),
        k <= b.len(),
        forall|j: int| 0 <= j < k ==> a[j] == b[j],
    ensures
        header_at(start, a, k) == header_at(start, b, k),
    decreases k,
{
    if k > 0 {
        lemma_header_at_agrees(start, a, b, k - 1);
    }
}

/// The frames of a header format that gives each of `headers` its own
/// length.
pub open spec fn true_frames(headers: Seq<Seq<u8>>) -> Seq<Option<usize>> {
    Seq::new(headers.len(), |i: int| Some(headers[i].len() as usize))
}

/// The headers before header `i`, written one after the other, are the
/// front of all headers written one after the other, and header `i` follows
/// them.
proof fn lemma_flatten_front(headers: Seq<Seq<u8>>, i: int)
    requires
        0 <= i <= headers.len(),
    ensures
        headers.take(i).flatten().len() <= headers.flatten().len(),
        headers.flatten().take(headers.take(i).flatten().len() as int) == headers.take(i).flatten(),
        i < headers.len() ==> headers.take(i + 1).flatten() == headers.take(i).flatten()
            + headers[i],
    decreases headers.len() - i,
{
    if i == headers.len() {
        assert(headers.take(i) == headers);
    } else {
        lemma_flatten_front(headers, i + 1);
        headers.take(i).lemma_flatten_push(headers[i]);
        assert(headers.take(i).push(headers[i]) == headers.take(i + 1));
        let shorter = headers.take(i).flatten();
        let longer = headers.take(i + 1).flatten();
        assert(headers.flatten().take(shorter.len() as int) =~= headers.flatten().take(
            longer.len() as int,
        ).take(shorter.len() as int));
    }
}

/// With true frames, header `i` begins where the headers before it end.
proof fn lemma_true_frames_place(start: int, headers: Seq<Seq<u8>>, i: int)
    requires
        0 <= i <= headers.len(),
        forall|k: int| 0 <= k < headers.len() ==> (#[trigger] headers[k]).len() <= usize::MAX,
    ensures
        header_at(start, true_frames(headers), i) == start + headers.take(i).flatten().len(),
    decreases i,
{
    if i > 0 {
        lemma_true_frames_place(start, headers, i - 1);
        lemma_flatten_front(headers, i - 1);
    }
}

/// A proof comes back from its wire form as it went in, whatever follows the
/// wire form, where the header format gives each header its own length:
/// the hash, the justification and the headers are all the same again.
pub proof fn lemma_round_trip(data: ProofData, tail: Seq<u8>)
    requires
        encodable(data),
        forall|i: int|
            0 <= i < data.unknown_headers.len() ==> 0 < (#[trigger] data.unknown_headers[i]).len()
                <= usize::MAX,
    ensures
        decoded(encoded(data) + tail, true_frames(data.unknown_headers)) == Some(data),
{
    let input = encoded(data) + tail;
    let headers = data.unknown_headers;
    let frames = true_frames(headers);
    let length = data.justification.len() as u32;
    let count = headers.len() as u32;
    let from = HASH_LEN + compact_width(length);
    let until = from + length;
    let start = until + compact_width(count);
    lemma_compact_width(length);
    lemma_compact_width(count);
    assert(input.take(HASH_LEN as int) =~= data.block);
    let after_hash = data.justification + compact_bytes(count) + headers.flatten() + tail;
    assert(input.skip(HASH_LEN as int) =~= compact_bytes(length) + after_hash);
    lemma_compact_round_trip(length, after_hash);
    assert(input.subrange(from as int, until as int) =~= data.justification);
    assert(input.skip(until as int) =~= compact_bytes(count) + (headers.flatten() + tail));
    lemma_compact_round_trip(count, headers.flatten() + tail);
    assert forall|i: int| 0 <= i < count implies #[trigger] frame_fits(
        input.len() as int,
        start as int,
        frames,
        i,
    ) by {
        lemma_true_frames_place(start as int, headers, i);
        lemma_flatten_front(headers, i);
        lemma_flatten_front(headers, i + 1);
    }
    let read = decoded(input, frames).unwrap();
    assert forall|i: int| 0 <= i < count implies #[trigger] read.unknown_headers[i]
        == headers[i] by {
        lemma_true_frames_place(start as int, headers, i);
        lemma_true_frames_place(start as int, headers, i + 1);
        lemma_flatten_front(headers, i);
        lemma_flatten_front(headers, i + 1);
        let before = headers.take(i).flatten();
        assert((before + headers[i]).skip(before.len() as int) =~= headers[i]);
    }
    assert(read.unknown_headers =~= headers);
}

/// The headers up to header `k`, as frames that all fit cut them out of the
/// input, are the input from the first header to where header `k` begins.
proof fn lemma_framed_headers_are_input(
    input: Seq<u8>,
    start: int,
    frames: Seq<Option<usize>>,
    headers: Seq<Seq<u8>>,
    k: int,
)
    requires
        0 <= start <= input.len(),
        0 <= k <= headers.len() == frames.len(),
        forall|i: int| 0 <= i < frames.len() ==> #[trigger] frame_fits(input.len() as int, start, frames, i),
        forall|i: int|
            0 <= i < headers.len() ==> #[trigger] headers[i] == input.subrange(
                header_at(start, frames, i),
                header_at(start, frames, i + 1),
            ),
    ensures
        start <= header_at(start, frames, k) <= input.len(),
        headers.take(k).flatten() == input.subrange(start, header_at(start, frames, k)),
    decreases k,
{
    if k > 0 {
        lemma_framed_headers_are_input(input, start, frames, headers, k - 1);
        assert(frame_fits(input.len() as int, start, frames, k - 1));
        headers.take(k - 1).lemma_flatten_push(headers[k - 1]);
        assert(headers.take(k - 1).push(headers[k - 1]) == headers.take(k));
        assert(input.subrange(start, header_at(start, frames, k - 1)) + input.subrange(
            header_at(start, frames, k - 1),
            header_at(start, frames, k),
        ) =~= input.subrange(start, header_at(start, frames, k)));
    }
}

/// What is read was written: a proof read from `input` can be written, and
/// `input` begins with its wire form. So no two inputs that differ within
/// the proof give the same proof.
pub proof fn lemma_decoded_was_encoded(input: Seq<u8>, frames: Seq<Option<usize>>)
    requires
        decoded(input, frames) is Some,
    ensures
        encodable(decoded(input, frames)->Some_0),
        encoded(decoded(input, frames)->Some_0).len() <= input.len(),
        input.take(encoded(decoded(input, frames)->Some_0).len() as int) == encoded(
            decoded(input, frames)->Some_0,
        ),
{
    let data = decoded(input, frames)->Some_0;
    let front = front_of(input)->Some_0;
    let length = compact_value(input.skip(HASH_LEN as int))->Some_0;
    let from = HASH_LEN + compact_width(length);
    let until = from + length;
    let count = front.header_count;
    let start = front.headers_at;
    lemma_decoded_is_canonical(input.skip(HASH_LEN as int), length);
    lemma_decoded_is_canonical(input.skip(until as int), count);
    lemma_framed_headers_are_input(input, start, frames, data.unknown_headers, count as int);
    assert(data.unknown_headers.take(count as int) == data.unknown_headers);
    let end = header_at(start, frames, count as int);
    assert(input.skip(HASH_LEN as int).take(compact_width(length) as int) =~= input.subrange(
        HASH_LEN as int,
        from as int,
    ));
    assert(input.skip(until as int).take(compact_width(count) as int) =~= input.subrange(
        until as int,
        start,
    ));
    assert(input.take(end) =~= input.take(HASH_LEN as int) + input.subrange(
        HASH_LEN as int,
        from as int,
    ) + input.subrange(from as int, until as int) + input.subrange(until as int, start)
        + input.subrange(start, end));
}

/// Where header `i` of a proof begins in the proof's wire form.
pub open spec fn header_place(data: ProofData, i: int) -> int {
    HASH_LEN + compact_width(data.justification.len() as u32) + data.justification.len()
        + compact_width(data.unknown_headers.len() as u32) + data.unknown_headers.take(
        i,
    ).flatten().len()
}

/// Frames that give each header they reach its own length reach all headers
/// and are the true frames.
proof fn lemma_truthful_frames_are_true(
    input_len: int,
    start: int,
    headers: Seq<Seq<u8>>,
    frames: Seq<Option<usize>>,
    k: int,
)
    requires
        forall|i: int| 0 <= i < headers.len() ==> 0 < (#[trigger] headers[i]).len() <= usize::MAX,
        start + headers.flatten().len() <= input_len,
        0 <= k <= frames.len() <= headers.len(),
        forall|i: int|
            0 <= i < frames.len() && header_at(start, frames, i) == start + headers.take(
                i,
            ).flatten().len() ==> #[trigger] frames[i] == Some(headers[i].len() as usize),
    ensures
        header_at(start, frames, k) == start + headers.take(k).flatten().len(),
        forall|i: int| 0 <= i < k ==> #[trigger] frames[i] == Some(headers[i].len() as usize),
        forall|i: int| 0 <= i < k ==> #[trigger] frame_fits(input_len, start, frames, i),
    decreases k,
{
    if k > 0 {
        lemma_truthful_frames_are_true(input_len, start, headers, frames, k - 1);
        lemma_flatten_front(headers, k - 1);
        lemma_flatten_front(headers, k);
    }
}

/// A proof that was written is read back as it was, by a header format that
/// gives each of its headers, asked at the header's place, the header's own
/// length: whatever frames such a format reported, they are the true ones.
pub proof fn lemma_round_trip_with_format<H: HeaderFormat>(
    input: &Vec<u8>,
    data: ProofData,
    frames: Seq<Option<usize>>,
)
    requires
        encodable(data),
        forall|i: int|
            0 <= i < data.unknown_headers.len() ==> 0 < (#[trigger] data.unknown_headers[i]).len()
                <= usize::MAX,
        encoded(data).len() <= input@.len(),
        input@.take(encoded(data).len() as int) == encoded(data),
        framed_by::<H>(input, frames),
        forall|i: int, frame: Option<usize>|
            0 <= i < data.unknown_headers.len() && #[trigger] call_ensures(
                H::encoded_len,
                (input, header_place(data, i) as usize),
                frame,
            ) ==> frame == Some(data.unknown_headers[i].len() as usize),
    ensures
        decoded(input@, frames) == Some(data),
{
    let headers = data.unknown_headers;
    let tail = input@.skip(encoded(data).len() as int);
    assert(input@ =~= encoded(data) + tail);
    lemma_round_trip(data, tail);
    let front = front_of(input@)->Some_0;
    let start = front.headers_at;
    let total = input@.len() as int;
    lemma_compact_width(data.justification.len() as u32);
    lemma_compact_width(headers.len() as u32);
    assert forall|i: int|
        0 <= i < frames.len() && header_at(start, frames, i) == start + headers.take(
            i,
        ).flatten().len() implies #[trigger] frames[i] == Some(headers[i].len() as usize) by {
        lemma_flatten_front(headers, i);
        assert(header_place(data, i) <= encoded(data).len() <= input.len());
        assert(call_ensures(
            H::encoded_len,
            (input, header_at(start, frames, i) as usize),
            frames[i],
        ));
    }
    lemma_truthful_frames_are_true(total, start, headers, frames, frames.len() as int);
    // All frames fit, so the run did not end before the last header.
    assert(frames =~= true_frames(headers));
}

} // verus!

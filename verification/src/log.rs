use vstd::prelude::*;

use crate::error::StorageError;

verus! {

broadcast use vstd::std_specs::vec::group_vec_axioms;

/// The byte sequences held by a sequence of payload buffers, in order.
pub open spec fn views_of(payloads: Seq<Vec<u8>>) -> Seq<Seq<u8>> {
    payloads.map_values(|p: Vec<u8>| p@)
}

/// One frame of the record log: a 4-byte little-endian length followed by
/// exactly that many payload bytes.
pub open spec fn frame_bytes(payload: Seq<u8>) -> Seq<u8> {
    vstd::bytes::spec_u32_to_le_bytes(payload.len() as u32) + payload
}

/// A batch of payloads framed back to back, in order.
pub open spec fn frames_bytes(payloads: Seq<Seq<u8>>) -> Seq<u8>
    decreases payloads.len(),
{
    if payloads.len() == 0 {
        Seq::empty()
    } else {
        frame_bytes(payloads[0]) + frames_bytes(payloads.drop_first())
    }
}

/// The payloads of the complete frames at the front of `data`, in file
/// order.  Parsing stops at the first incomplete frame: fewer than 4 bytes
/// left, or a length prefix that promises more bytes than remain.  Such a
/// truncated tail is the expected residue of an append interrupted by a
/// crash, and is not an error.
pub open spec fn parse_frames(data: Seq<u8>) -> Seq<Seq<u8>>
    decreases data.len(),
{
    if data.len() < 4 {
        Seq::empty()
    } else {
        let len = vstd::bytes::spec_u32_from_le_bytes(data.subrange(0, 4)) as int;
        if data.len() < 4 + len {
            Seq::empty()
        } else {
            seq![data.subrange(4, 4 + len)] + parse_frames(
                data.subrange(4 + len, data.len() as int),
            )
        }
    }
}

/// `data` is exactly a whole number of complete frames, with no truncated
/// tail.  Every log built purely by appends has this shape.
pub open spec fn well_framed(data: Seq<u8>) -> bool
    decreases data.len(),
{
    if data.len() == 0 {
        true
    } else if data.len() < 4 {
        false
    } else {
        let len = vstd::bytes::spec_u32_from_le_bytes(data.subrange(0, 4)) as int;
        &&& data.len() >= 4 + len
        &&& well_framed(data.subrange(4 + len, data.len() as int))
    }
}

/// Framing one payload yields a single complete frame holding exactly that
/// payload.
pub proof fn lemma_frame_well_framed(payload: Seq<u8>)
    requires
        payload.len() <= u32::MAX,
    ensures
        well_framed(frame_bytes(payload)),
        parse_frames(frame_bytes(payload)) == seq![payload],
{
    vstd::bytes::lemma_auto_spec_u32_to_from_le_bytes();
    let f = frame_bytes(payload);
    assert(f.subrange(0, 4) =~= vstd::bytes::spec_u32_to_le_bytes(payload.len() as u32));
    let len = vstd::bytes::spec_u32_from_le_bytes(f.subrange(0, 4)) as int;
    assert(len == payload.len());
    assert(f.subrange(4, 4 + len) =~= payload);
    assert(f.subrange(4 + len, f.len() as int) =~= Seq::<u8>::empty());
    assert(well_framed(Seq::<u8>::empty()));
    assert(parse_frames(Seq::<u8>::empty()) =~= Seq::<Seq<u8>>::empty());
    assert(parse_frames(f) =~= seq![payload]);
}

/// Parsing walks through every complete frame: whatever follows a
/// well-framed prefix is parsed independently and appended.
pub proof fn lemma_parse_frames_concat(a: Seq<u8>, b: Seq<u8>)
    requires
        well_framed(a),
    ensures
        parse_frames(a + b) == parse_frames(a) + parse_frames(b),
    decreases a.len(),
{
    if a.len() == 0 {
        assert(a + b =~= b);
        assert(parse_frames(a) + parse_frames(b) =~= parse_frames(b));
    } else {
        let len = vstd::bytes::spec_u32_from_le_bytes(a.subrange(0, 4)) as int;
        let rest = a.subrange(4 + len, a.len() as int);
        let ab = a + b;
        assert(ab.subrange(0, 4) =~= a.subrange(0, 4));
        assert(ab.subrange(4, 4 + len) =~= a.subrange(4, 4 + len));
        assert(ab.subrange(4 + len, ab.len() as int) =~= rest + b);
        lemma_parse_frames_concat(rest, b);
        assert(parse_frames(a + b) =~= parse_frames(a) + parse_frames(b));
    }
}

/// Complete frames followed by complete frames are complete frames.
pub proof fn lemma_well_framed_concat(a: Seq<u8>, b: Seq<u8>)
    requires
        well_framed(a),
        well_framed(b),
    ensures
        well_framed(a + b),
    decreases a.len(),
{
    if a.len() == 0 {
        assert(a + b =~= b);
    } else {
        let len = vstd::bytes::spec_u32_from_le_bytes(a.subrange(0, 4)) as int;
        let rest = a.subrange(4 + len, a.len() as int);
        let ab = a + b;
        assert(ab.subrange(0, 4) =~= a.subrange(0, 4));
        assert(ab.subrange(4 + len, ab.len() as int) =~= rest + b);
        lemma_well_framed_concat(rest, b);
    }
}

/// Framing distributes over extending a batch by one payload.
pub proof fn lemma_frames_bytes_push(payloads: Seq<Seq<u8>>, payload: Seq<u8>)
    ensures
        frames_bytes(payloads.push(payload)) == frames_bytes(payloads) + frame_bytes(payload),
    decreases payloads.len(),
{
    if payloads.len() == 0 {
        assert(payloads.push(payload)[0] == payload);
        assert(payloads.push(payload).drop_first() =~= Seq::<Seq<u8>>::empty());
        assert(frames_bytes(Seq::<Seq<u8>>::empty()) =~= Seq::<u8>::empty());
        assert(frames_bytes(payloads.push(payload)) =~= frames_bytes(payloads) + frame_bytes(
            payload,
        ));
    } else {
        lemma_frames_bytes_push(payloads.drop_first(), payload);
        assert(payloads.push(payload).drop_first() =~= payloads.drop_first().push(payload));
        assert(payloads.push(payload)[0] == payloads[0]);
        assert(frames_bytes(payloads.push(payload)) =~= frames_bytes(payloads) + frame_bytes(
            payload,
        ));
    }
}

/// A batch of framed payloads is well framed and parses back to exactly
/// those payloads, in order.
pub proof fn lemma_frames_bytes_parse(payloads: Seq<Seq<u8>>)
    requires
        forall|i: int| 0 <= i < payloads.len() ==> #[trigger] payloads[i].len() <= u32::MAX,
    ensures
        well_framed(frames_bytes(payloads)),
        parse_frames(frames_bytes(payloads)) == payloads,
    decreases payloads.len(),
{
    if payloads.len() == 0 {
        assert(parse_frames(frames_bytes(payloads)) =~= payloads);
    } else {
        let first = frame_bytes(payloads[0]);
        let rest = frames_bytes(payloads.drop_first());
        lemma_frame_well_framed(payloads[0]);
        lemma_frames_bytes_parse(payloads.drop_first());
        lemma_well_framed_concat(first, rest);
        lemma_parse_frames_concat(first, rest);
        assert(parse_frames(frames_bytes(payloads)) =~= payloads);
    }
}

/// Appending any batch of payloads to a well-framed log and then parsing
/// the whole file yields the prior records followed by exactly the appended
/// payloads, byte-identical and in insertion order.
pub proof fn lemma_append_then_parse(base: Seq<u8>, payloads: Seq<Seq<u8>>)
    requires
        well_framed(base),
        forall|i: int| 0 <= i < payloads.len() ==> #[trigger] payloads[i].len() <= u32::MAX,
    ensures
        well_framed(base + frames_bytes(payloads)),
        parse_frames(base + frames_bytes(payloads)) == parse_frames(base) + payloads,
{
    lemma_frames_bytes_parse(payloads);
    lemma_well_framed_concat(base, frames_bytes(payloads));
    lemma_parse_frames_concat(base, frames_bytes(payloads));
}

/// The first `limit` payloads of `frames` that satisfy `p`, in order.
/// This is what a bounded, filtered scan of a log returns.
pub open spec fn matching_prefix(
    frames: Seq<Seq<u8>>,
    p: spec_fn(Seq<u8>) -> bool,
    limit: nat,
) -> Seq<Seq<u8>>
    decreases frames.len(),
{
    if limit == 0 || frames.len() == 0 {
        Seq::empty()
    } else if p(frames[0]) {
        seq![frames[0]] + matching_prefix(frames.drop_first(), p, (limit - 1) as nat)
    } else {
        matching_prefix(frames.drop_first(), p, limit)
    }
}

/// A bounded scan returns at most `limit` records, and never more records
/// than the file holds.
pub proof fn lemma_matching_prefix_len(frames: Seq<Seq<u8>>, p: spec_fn(Seq<u8>) -> bool, limit: nat)
    ensures
        matching_prefix(frames, p, limit).len() <= limit,
        matching_prefix(frames, p, limit).len() <= frames.len(),
    decreases frames.len(),
{
    if limit == 0 || frames.len() == 0 {
    } else if p(frames[0]) {
        lemma_matching_prefix_len(frames.drop_first(), p, (limit - 1) as nat);
    } else {
        lemma_matching_prefix_len(frames.drop_first(), p, limit);
    }
}

/// How one more scanned frame extends a filtered prefix: it is kept exactly
/// when it matches and the bound is not yet reached.
pub proof fn lemma_matching_prefix_push(
    frames: Seq<Seq<u8>>,
    p: spec_fn(Seq<u8>) -> bool,
    limit: nat,
    f: Seq<u8>,
)
    ensures
        matching_prefix(frames.push(f), p, limit) == if matching_prefix(frames, p, limit).len()
            < limit && p(f) {
            matching_prefix(frames, p, limit).push(f)
        } else {
            matching_prefix(frames, p, limit)
        },
    decreases frames.len(),
{
    lemma_matching_prefix_len(frames, p, limit);
    if frames.len() == 0 {
        if limit == 0 {
        } else {
            assert(frames.push(f)[0] == f);
            assert(frames.push(f).drop_first() =~= Seq::<Seq<u8>>::empty());
            assert(matching_prefix(Seq::<Seq<u8>>::empty(), p, (limit - 1) as nat)
                =~= Seq::<Seq<u8>>::empty());
            assert(matching_prefix(Seq::<Seq<u8>>::empty(), p, limit)
                =~= Seq::<Seq<u8>>::empty());
            if p(f) {
                assert(matching_prefix(frames.push(f), p, limit) =~= matching_prefix(
                    frames,
                    p,
                    limit,
                ).push(f));
            } else {
                assert(matching_prefix(frames.push(f), p, limit) =~= matching_prefix(
                    frames,
                    p,
                    limit,
                ));
            }
        }
    } else if limit == 0 {
    } else {
        assert(frames.push(f)[0] == frames[0]);
        assert(frames.push(f).drop_first() =~= frames.drop_first().push(f));
        if p(frames[0]) {
            lemma_matching_prefix_push(frames.drop_first(), p, (limit - 1) as nat, f);
            if matching_prefix(frames, p, limit).len() < limit && p(f) {
                assert(matching_prefix(frames.push(f), p, limit) =~= matching_prefix(
                    frames,
                    p,
                    limit,
                ).push(f));
            } else {
                assert(matching_prefix(frames.push(f), p, limit) =~= matching_prefix(
                    frames,
                    p,
                    limit,
                ));
            }
        } else {
            lemma_matching_prefix_push(frames.drop_first(), p, limit, f);
        }
    }
}

/// Once the bound is reached, later frames cannot change what a scan
/// returns: more matching records may exist in the file, but at most
/// `limit` are reported.
pub proof fn lemma_matching_prefix_saturated(
    frames: Seq<Seq<u8>>,
    rest: Seq<Seq<u8>>,
    p: spec_fn(Seq<u8>) -> bool,
    limit: nat,
)
    requires
        matching_prefix(frames, p, limit).len() == limit,
    ensures
        matching_prefix(frames + rest, p, limit) == matching_prefix(frames, p, limit),
    decreases frames.len(),
{
    if limit == 0 {
        assert(matching_prefix(frames + rest, p, limit) =~= matching_prefix(frames, p, limit));
    } else if frames.len() == 0 {
        lemma_matching_prefix_len(frames, p, limit);
    } else {
        assert((frames + rest)[0] == frames[0]);
        assert((frames + rest).drop_first() =~= frames.drop_first() + rest);
        if p(frames[0]) {
            lemma_matching_prefix_saturated(frames.drop_first(), rest, p, (limit - 1) as nat);
            assert(matching_prefix(frames + rest, p, limit) =~= matching_prefix(
                frames,
                p,
                limit,
            ));
        } else {
            lemma_matching_prefix_saturated(frames.drop_first(), rest, p, limit);
        }
    }
}

/// The first `limit` of `frames`, or all of them if there are fewer.
pub open spec fn prefix_upto(frames: Seq<Seq<u8>>, limit: nat) -> Seq<Seq<u8>> {
    if limit <= frames.len() {
        frames.take(limit as int)
    } else {
        frames
    }
}

/// With a predicate that accepts everything, a bounded scan is exactly the
/// first `limit` records of the file, or all of them if fewer.
pub proof fn lemma_matching_prefix_all(frames: Seq<Seq<u8>>, p: spec_fn(Seq<u8>) -> bool, limit: nat)
    requires
        forall|s: Seq<u8>| #[trigger] p(s),
    ensures
        matching_prefix(frames, p, limit) == prefix_upto(frames, limit),
    decreases frames.len(),
{
    if limit == 0 || frames.len() == 0 {
        if limit <= frames.len() {
            assert(matching_prefix(frames, p, limit) =~= frames.take(limit as int));
        } else {
            assert(matching_prefix(frames, p, limit) =~= frames);
        }
    } else {
        lemma_matching_prefix_all(frames.drop_first(), p, (limit - 1) as nat);
        if limit <= frames.len() {
            assert(matching_prefix(frames, p, limit) =~= frames.take(limit as int));
        } else {
            assert(matching_prefix(frames, p, limit) =~= frames);
        }
    }
}

/// A scan whose predicate matches no record in the file returns the empty
/// sequence.
pub proof fn lemma_matching_prefix_none(
    frames: Seq<Seq<u8>>,
    p: spec_fn(Seq<u8>) -> bool,
    limit: nat,
)
    requires
        forall|i: int| 0 <= i < frames.len() ==> !#[trigger] p(frames[i]),
    ensures
        matching_prefix(frames, p, limit) == Seq::<Seq<u8>>::empty(),
    decreases frames.len(),
{
    if limit == 0 || frames.len() == 0 {
        assert(matching_prefix(frames, p, limit) =~= Seq::<Seq<u8>>::empty());
    } else {
        assert(!p(frames[0]));
        assert(forall|i: int|
            0 <= i < frames.drop_first().len() ==> frames.drop_first()[i] == frames[i + 1]);
        lemma_matching_prefix_none(frames.drop_first(), p, limit);
    }
}

/// A file that ends in a truncated trailing frame parses to exactly the
/// complete frames before the tail: the tail contributes nothing and raises
/// no error.
pub proof fn lemma_truncated_tail(base: Seq<u8>, tail: Seq<u8>)
    requires
        well_framed(base),
        tail.len() < 4 || tail.len() < 4 + vstd::bytes::spec_u32_from_le_bytes(
            tail.subrange(0, 4),
        ),
    ensures
        parse_frames(base + tail) == parse_frames(base),
{
    lemma_parse_frames_concat(base, tail);
    assert(parse_frames(tail) =~= Seq::<Seq<u8>>::empty());
    assert(parse_frames(base) + parse_frames(tail) =~= parse_frames(base));
}

/// One frame, as the bytes that `append` adds to the end of a log file:
/// the payload's length as 4 little-endian bytes, then the payload.
pub fn encode_frame(payload: &Vec<u8>) -> (r: Vec<u8>)
    requires
        payload@.len() <= u32::MAX,
    ensures
        r@ == frame_bytes(payload@),
{
    let len32: u32 = payload.len() as u32;
    let mut r = vstd::bytes::u32_to_le_bytes(len32);
    r.extend_from_slice(payload.as_slice());
    r
}

/// An append-only, length-prefixed record log: the byte image of one log
/// file.  Frames are immutable once written; there is no update or delete,
/// only append.  Scans read the frame sequence from the front.
///
/// The log itself is an in-memory model of the file: an unverified shell
/// reads the file in at construction and appends the same frame bytes to
/// the file that `append` adds here.
pub struct RecordLog {
    data: Vec<u8>,
}

impl View for RecordLog {
    type V = Seq<u8>;

    closed spec fn view(&self) -> Seq<u8> {
        self.data@
    }
}

impl RecordLog {
    /// The payloads of the complete frames of the log, in insertion order.
    pub open spec fn records(self) -> Seq<Seq<u8>> {
        parse_frames(self@)
    }

    /// A fresh, empty log.
    pub fn new() -> (r: RecordLog)
        ensures
            r@ == Seq::<u8>::empty(),
            well_framed(r@),
            r.records() == Seq::<Seq<u8>>::empty(),
    {
        let r = RecordLog { data: Vec::new() };
        proof {
            assert(parse_frames(r@) =~= Seq::<Seq<u8>>::empty());
        }
        r
    }

    /// Adopts the byte content of an existing log file, exactly as read.
    /// The content need not be well framed: a truncated trailing frame is
    /// tolerated and ignored by every scan.
    pub fn from_bytes(data: Vec<u8>) -> (r: RecordLog)
        ensures
            r@ == data@,
    {
        RecordLog { data }
    }

    /// The raw byte image of the log, for the I/O shell to persist.
    pub fn as_bytes(&self) -> (r: &Vec<u8>)
        ensures
            r@ == self@,
    {
        &self.data
    }

    /// The size of the log in bytes.
    pub fn byte_len(&self) -> (r: usize)
        ensures
            r == self@.len(),
    {
        self.data.len()
    }

    /// Appends one record as a single frame at the end of the log.  On a
    /// log of complete frames this adds exactly one record, byte-identical
    /// to `payload`, after all existing ones.
    pub fn append(&mut self, payload: &Vec<u8>)
        requires
            payload@.len() <= u32::MAX,
        ensures
            final(self)@ == old(self)@ + frame_bytes(payload@),
            well_framed(old(self)@) ==> {
                &&& well_framed(final(self)@)
                &&& final(self).records() == old(self).records().push(payload@)
            },
    {
        let mut frame = encode_frame(payload);
        self.data.append(&mut frame);
        proof {
            if well_framed(old(self)@) {
                lemma_append_then_parse(old(self)@, seq![payload@]);
                assert(frames_bytes(seq![payload@].drop_first()) =~= Seq::<u8>::empty());
                assert(frames_bytes(seq![payload@]) =~= frame_bytes(payload@));
                assert(parse_frames(old(self)@) + seq![payload@] =~= parse_frames(
                    old(self)@,
                ).push(payload@));
            }
        }
    }

    /// Appends a batch of records as consecutive frames, in order.  The
    /// frames are laid out exactly as repeated single appends would lay
    /// them out; the shell syncs once at the end of the batch.
    pub fn append_batch(&mut self, payloads: &Vec<Vec<u8>>)
        requires
            forall|i: int| 0 <= i < payloads@.len() ==> #[trigger] payloads@[i]@.len() <= u32::MAX,
        ensures
            final(self)@ == old(self)@ + frames_bytes(views_of(payloads@)),
            well_framed(old(self)@) ==> {
                &&& well_framed(final(self)@)
                &&& final(self).records() == old(self).records() + views_of(payloads@)
            },
    {
        let ghost goal: Seq<Seq<u8>> = views_of(payloads@);
        let mut i: usize = 0;
        proof {
            assert(frames_bytes(Seq::<Seq<u8>>::empty()) =~= Seq::<u8>::empty());
            assert(goal.take(0) =~= Seq::<Seq<u8>>::empty());
            assert(self@ =~= old(self)@ + frames_bytes(goal.take(0)));
        }
        while i < payloads.len()
            invariant
                i <= payloads@.len(),
                goal == views_of(payloads@),
                forall|j: int| 0 <= j < payloads@.len() ==> #[trigger] payloads@[j]@.len()
                    <= u32::MAX,
                self@ == old(self)@ + frames_bytes(goal.take(i as int)),
            decreases payloads@.len() - i,
        {
            let ghost pre = self@;
            let mut frame = encode_frame(&payloads[i]);
            self.data.append(&mut frame);
            proof {
                assert(goal.take(i + 1) =~= goal.take(i as int).push(goal[i as int]));
                lemma_frames_bytes_push(goal.take(i as int), goal[i as int]);
                assert(self@ =~= old(self)@ + frames_bytes(goal.take(i + 1)));
            }
            i += 1;
        }
        proof {
            assert(goal.take(goal.len() as int) =~= goal);
            if well_framed(old(self)@) {
                lemma_append_then_parse(old(self)@, goal);
            }
        }
    }

    /// A streaming scan over the log file, from byte 0: for each complete
    /// frame, in order, the payload is handed to `filter`; exactly the
    /// matching payloads are handed to `map`, and the mapped values are
    /// collected until `limit` of them exist or the file is exhausted.
    /// `map` is applied only to records that `filter` accepted, never to
    /// the ones it excluded.
    ///
    /// A truncated trailing frame ends the scan without error; an error
    /// from `filter` (a payload that does not decode, reported by the
    /// caller's predicate) aborts the scan and is returned as is.
    ///
    /// For any predicate `p` that `filter` decides infallibly, the result
    /// is exactly the `map` images of `matching_prefix(records, p, limit)`.
    pub fn scan<R, F: Fn(&Vec<u8>) -> Result<bool, StorageError>, M: Fn(Vec<u8>) -> R>(
        &self,
        limit: usize,
        filter: F,
        map: M,
    ) -> (r: Result<Vec<R>, StorageError>)
        requires
            forall|b: Vec<u8>| #[trigger] call_requires(filter, (&b,)),
            forall|b: Vec<u8>| #[trigger] call_requires(map, (b,)),
        ensures
            match r {
                Result::Ok(v) => v@.len() <= limit,
                Result::Err(e) => exists|pay: Vec<u8>|
                    #[trigger] call_ensures(filter, (&pay,), Result::<bool, StorageError>::Err(e))
                        && self.records().contains(pay@),
            },
            forall|p: spec_fn(Seq<u8>) -> bool|
                #![trigger matching_prefix(self.records(), p, limit as nat)]
                decides(filter, p) ==> match r {
                    Result::Ok(v) => mapped_from(
                        map,
                        matching_prefix(self.records(), p, limit as nat),
                        v@,
                    ),
                    Result::Err(e) => false,
                },
    {
        let data_len = self.data.len();
        let mut results: Vec<R> = Vec::new();
        let mut pos: usize = 0;
        let mut done: bool = false;
        let ghost mut consumed: Seq<Seq<u8>> = Seq::empty();
        let ghost mut kept: Seq<Vec<u8>> = Seq::empty();
        proof {
            assert(self@.subrange(0, data_len as int) =~= self@);
            assert(consumed + parse_frames(self@) =~= parse_frames(self@));
        }
        while !done && results.len() < limit
            invariant
                data_len == self@.len(),
                pos <= data_len,
                forall|b: Vec<u8>| #[trigger] call_requires(filter, (&b,)),
                forall|b: Vec<u8>| #[trigger] call_requires(map, (b,)),
                parse_frames(self@) == consumed + parse_frames(
                    self@.subrange(pos as int, data_len as int),
                ),
                done ==> parse_frames(self@.subrange(pos as int, data_len as int))
                    == Seq::<Seq<u8>>::empty(),
                results@.len() <= limit,
                kept.len() == results@.len(),
                forall|i: int|
                    0 <= i < results@.len() ==> #[trigger] call_ensures(
                        map,
                        (kept[i],),
                        results@[i],
                    ),
                forall|p: spec_fn(Seq<u8>) -> bool|
                    #![trigger matching_prefix(consumed, p, limit as nat)]
                    decides(filter, p) ==> matching_prefix(consumed, p, limit as nat)
                        == views_of(kept),
            decreases data_len - pos + (if done {
                0int
            } else {
                1int
            }),
        {
            let ghost remaining = self@.subrange(pos as int, data_len as int);
            if data_len - pos < 4 {
                done = true;
                proof {
                    assert(parse_frames(remaining) =~= Seq::<Seq<u8>>::empty());
                }
            } else {
                let len_slice = vstd::slice::slice_subrange(self.data.as_slice(), pos, pos + 4);
                let len32 = vstd::bytes::u32_from_le_bytes(len_slice);
                let flen = len32 as usize;
                proof {
                    assert(remaining.subrange(0, 4) =~= len_slice@);
                }
                if data_len - pos - 4 < flen {
                    done = true;
                    proof {
                        assert(parse_frames(remaining) =~= Seq::<Seq<u8>>::empty());
                    }
                } else {
                    let payload_slice = vstd::slice::slice_subrange(
                        self.data.as_slice(),
                        pos + 4,
                        pos + 4 + flen,
                    );
                    let payload = vstd::slice::slice_to_vec(payload_slice);
                    let ghost gpayload: Seq<u8> = payload@;
                    let next_pos = pos + 4 + flen;
                    proof {
                        assert(remaining.subrange(4, 4 + flen) =~= payload@);
                        assert(remaining.subrange(4 + flen, remaining.len() as int)
                            =~= self@.subrange(next_pos as int, data_len as int));
                        assert(parse_frames(remaining) == seq![gpayload] + parse_frames(
                            self@.subrange(next_pos as int, data_len as int),
                        ));
                    }
                    match filter(&payload) {
                        Result::Err(e) => {
                            proof {
                                assert(parse_frames(self@)[consumed.len() as int] == gpayload);
                                assert(self.records().contains(gpayload));
                                assert(call_ensures(
                                    filter,
                                    (&payload,),
                                    Result::<bool, StorageError>::Err(e),
                                ));
                            }
                            return Result::Err(e);
                        },
                        Result::Ok(matched) => {
                            let ghost old_consumed = consumed;
                            let ghost old_kept = kept;
                            if matched {
                                let ghost pay_copy = payload;
                                let mapped = map(payload);
                                results.push(mapped);
                                proof {
                                    kept = kept.push(pay_copy);
                                }
                            }
                            pos = next_pos;
                            proof {
                                consumed = old_consumed.push(gpayload);
                                assert(parse_frames(self@) =~= consumed + parse_frames(
                                    self@.subrange(pos as int, data_len as int),
                                ));
                                assert forall|p: spec_fn(Seq<u8>) -> bool|
                                    decides(filter, p) implies #[trigger] matching_prefix(
                                    consumed,
                                    p,
                                    limit as nat,
                                ) == views_of(kept) by {
                                    assert(call_ensures(
                                        filter,
                                        (&payload,),
                                        Result::<bool, StorageError>::Ok(matched),
                                    ));
                                    assert(matched == p(gpayload));
                                    lemma_matching_prefix_push(
                                        old_consumed,
                                        p,
                                        limit as nat,
                                        gpayload,
                                    );
                                    assert(matching_prefix(old_consumed, p, limit as nat)
                                        == views_of(old_kept));
                                    if matched {
                                        assert(views_of(kept) =~= views_of(old_kept).push(
                                            gpayload,
                                        ));
                                    }
                                }
                            }
                        },
                    }
                }
            }
        }
        proof {
            let ghost rest = parse_frames(self@.subrange(pos as int, data_len as int));
            assert forall|p: spec_fn(Seq<u8>) -> bool|
                decides(filter, p) implies #[trigger] matching_prefix(
                self.records(),
                p,
                limit as nat,
            ) == views_of(kept) by {
                if done {
                    assert(self.records() =~= consumed);
                } else {
                    assert(results@.len() == limit);
                    assert(matching_prefix(consumed, p, limit as nat).len() == limit);
                    lemma_matching_prefix_saturated(consumed, rest, p, limit as nat);
                    assert(consumed + rest =~= self.records());
                }
            }
            assert forall|i: int|
                    #![trigger results@[i]]
                    0 <= i < results@.len() implies map_can_produce(
                    map,
                    views_of(kept)[i],
                    results@[i],
                ) by {
                assert(views_of(kept)[i] == kept[i]@);
                assert(call_ensures(map, (kept[i],), results@[i]));
            }
            assert(mapped_from(map, views_of(kept), results@));
        }
        Result::Ok(results)
    }

    /// A filtered scan that returns the matching payloads themselves,
    /// unmapped: for any predicate `p` that `filter` decides infallibly the
    /// result holds exactly `matching_prefix(records, p, limit)`.
    pub fn scan_match<F: Fn(&Vec<u8>) -> Result<bool, StorageError>>(
        &self,
        limit: usize,
        filter: F,
    ) -> (r: Result<Vec<Vec<u8>>, StorageError>)
        requires
            forall|b: Vec<u8>| #[trigger] call_requires(filter, (&b,)),
        ensures
            match r {
                Result::Ok(v) => v@.len() <= limit,
                Result::Err(e) => exists|pay: Vec<u8>|
                    #[trigger] call_ensures(filter, (&pay,), Result::<bool, StorageError>::Err(e))
                        && self.records().contains(pay@),
            },
            forall|p: spec_fn(Seq<u8>) -> bool|
                #![trigger matching_prefix(self.records(), p, limit as nat)]
                decides(filter, p) ==> match r {
                    Result::Ok(v) => views_of(v@) == matching_prefix(
                        self.records(),
                        p,
                        limit as nat,
                    ),
                    Result::Err(e) => false,
                },
    {
        let m = |b: Vec<u8>| -> (res: Vec<u8>)
            ensures
                res == b,
            { b };
        let r = self.scan(limit, filter, m);
        proof {
            if let Result::Ok(v) = &r {
                assert forall|p: spec_fn(Seq<u8>) -> bool|
                    decides(filter, p) implies #[trigger] matching_prefix(
                    self.records(),
                    p,
                    limit as nat,
                ) == views_of(v@) by {
                    lemma_mapped_identity(
                        m,
                        matching_prefix(self.records(), p, limit as nat),
                        v@,
                    );
                }
            }
        }
        r
    }

    /// Reads the first `limit` records of the log, in insertion order,
    /// byte-identical to what was appended; all of them if the log holds
    /// fewer.
    pub fn scan_all(&self, limit: usize) -> (r: Vec<Vec<u8>>)
        ensures
            views_of(r@) == prefix_upto(self.records(), limit as nat),
    {
        let f = |b: &Vec<u8>| -> (res: Result<bool, StorageError>)
            ensures
                res == Result::<bool, StorageError>::Ok(true),
            { Result::<bool, StorageError>::Ok(true) };
        let ghost pt: spec_fn(Seq<u8>) -> bool = |s: Seq<u8>| true;
        proof {
            assert(decides(f, pt));
        }
        let r = self.scan_match(limit, f);
        match r {
            Result::Ok(v) => {
                proof {
                    assert(views_of(v@) == matching_prefix(self.records(), pt, limit as nat));
                    lemma_matching_prefix_all(self.records(), pt, limit as nat);
                }
                v
            },
            Result::Err(e) => {
                proof {
                    lemma_matching_prefix_len(self.records(), pt, limit as nat);
                }
                vstd::pervasive::unreached()
            },
        }
    }
}

/// With an identity mapping, the scan's outputs are exactly the kept
/// payloads.
proof fn lemma_mapped_identity<M: Fn(Vec<u8>) -> Vec<u8>>(
    map: M,
    kept: Seq<Seq<u8>>,
    v: Seq<Vec<u8>>,
)
    requires
        mapped_from(map, kept, v),
        forall|x: Vec<u8>, ret: Vec<u8>| #[trigger] call_ensures(map, (x,), ret) ==> ret == x,
    ensures
        views_of(v) == kept,
{
    assert forall|i: int| 0 <= i < v.len() implies views_of(v)[i] == kept[i] by {
        assert(map_can_produce(map, kept[i], v[i]));
        let pay = choose|pay: Vec<u8>|
            pay@ == kept[i] && #[trigger] call_ensures(map, (pay,), v[i]);
        assert(v[i] == pay);
    }
    assert(views_of(v) =~= kept);
}

/// `out` is an output that `map` can produce on a payload buffer holding
/// exactly the bytes `bytes`.
pub open spec fn map_can_produce<R, M: Fn(Vec<u8>) -> R>(map: M, bytes: Seq<u8>, out: R) -> bool {
    exists|pay: Vec<u8>| pay@ == bytes && #[trigger] call_ensures(map, (pay,), out)
}

/// `v` consists, element for element and in order, of outputs that `map`
/// can produce on the payloads `kept`: the shape of a filtered scan's
/// result once the kept payloads are known.
pub open spec fn mapped_from<R, M: Fn(Vec<u8>) -> R>(map: M, kept: Seq<Seq<u8>>, v: Seq<R>) -> bool {
    &&& v.len() == kept.len()
    &&& forall|i: int|
        #![trigger v[i]]
        0 <= i < v.len() ==> map_can_produce(map, kept[i], v[i])
}

/// `filter` infallibly computes the pure predicate `p` on the payload
/// bytes: every outcome `filter` can produce on any payload is `Ok` of
/// `p`'s verdict on it.
pub open spec fn decides<F: Fn(&Vec<u8>) -> Result<bool, StorageError>>(
    filter: F,
    p: spec_fn(Seq<u8>) -> bool,
) -> bool {
    forall|b: &Vec<u8>, out: Result<bool, StorageError>|
        #[trigger] call_ensures(filter, (b,), out) ==> out == Result::<bool, StorageError>::Ok(
            p(b@),
        )
}

} // verus!

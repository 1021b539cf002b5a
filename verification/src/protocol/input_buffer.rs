//! The inputs that are on their way to a remote peer, and those that come from it.
use super::bitfield;
use super::compression;
use super::compression::{DecodeError, EncodeError};
use crate::input::FrameInput;
use crate::input_value::InputValue;
use crate::{is_null, Frame, NULL_FRAME};
use std::collections::VecDeque;
use vstd::prelude::*;

verus! {

/// What an encoder holds.
pub struct EncoderView<T> {
    /// The inputs that were not acknowledged, in the order in which they were pushed.
    pub pending: Seq<FrameInput<T>>,
    /// The input relative to which the pending ones are encoded.
    pub last_acked: FrameInput<T>,
    /// The last input that was encoded.
    pub last_encoded: FrameInput<T>,
}

impl<T: InputValue> EncoderView<T> {
    /// The inputs from before a frame.
    pub open spec fn before(self, frame: Frame) -> Seq<FrameInput<T>> {
        self.pending.filter(|i: FrameInput<T>| i.frame < frame)
    }

    /// The encoder after a frame was acknowledged.
    pub open spec fn acknowledged(self, ack_frame: Frame) -> Self {
        Self {
            pending: self.pending.filter(|i: FrameInput<T>| i.frame >= ack_frame),
            last_acked: if self.before(ack_frame).len() > 0 {
                self.before(ack_frame).last()
            } else {
                self.last_acked
            },
            last_encoded: self.last_encoded,
        }
    }

    /// The values of the pending inputs.
    pub open spec fn values(self) -> Seq<T> {
        self.pending.map_values(|i: FrameInput<T>| i.input)
    }

    /// Whether the pending inputs can be sent.
    pub open spec fn is_sendable(self) -> bool {
        self.pending.len() > 0 ==> compression::fits::<T>(self.pending.len() as int)
    }

    /// The frame of the first pending input.
    pub open spec fn start_frame(self) -> Frame {
        if self.pending.len() == 0 {
            self.last_acked.frame
        } else {
            self.pending[0].frame
        }
    }

    /// The bytes of the pending inputs.
    pub open spec fn bits(self) -> Seq<u8> {
        if self.pending.len() == 0 {
            Seq::empty()
        } else {
            bitfield::encoded(compression::delta(self.last_acked.input, self.values()))
        }
    }

    /// The encoder after its pending inputs were encoded.
    pub open spec fn sent(self) -> Self {
        if self.pending.len() == 0 {
            self
        } else {
            Self { last_encoded: self.pending.last(), ..self }
        }
    }
}

/// A buffer of all inputs that have not been yet acknowledged by a connected remote peer.
pub struct InputEncoder<T> {
    pending: VecDeque<FrameInput<T>>,
    last_acked: FrameInput<T>,
    last_encoded: FrameInput<T>,
}

impl<T: InputValue> View for InputEncoder<T> {
    type V = EncoderView<T>;

    closed spec fn view(&self) -> EncoderView<T> {
        EncoderView {
            pending: self.pending@,
            last_acked: self.last_acked,
            last_encoded: self.last_encoded,
        }
    }
}

impl<T: InputValue> Default for InputEncoder<T> {
    fn default() -> (r: Self)
        ensures
            r@.pending.len() == 0,
            r@.last_acked == (FrameInput { frame: NULL_FRAME, input: T::zero() }),
            r@.last_encoded == (FrameInput { frame: NULL_FRAME, input: T::zero() }),
    {
        Self {
            pending: VecDeque::new(),
            last_acked: FrameInput::default(),
            last_encoded: FrameInput::default(),
        }
    }
}

impl<T: InputValue> InputEncoder<T> {
    /// Adds an input to as the latest element in the queue.
    pub fn push(&mut self, input: FrameInput<T>)
        ensures
            final(self)@ == (EncoderView { pending: old(self)@.pending.push(input), ..old(self)@ }),
    {
        self.pending.push_back(input);
    }

    /// Gets the frame of the last input that was encoded via `encode`.
    pub fn last_encoded_frame(&self) -> (r: Frame)
        ensures
            r == self@.last_encoded.frame,
    {
        self.last_encoded.frame
    }

    /// Tells whether the pending inputs can be sent, and some more with them.
    pub fn is_sendable(&self, more: usize) -> (r: bool)
        ensures
            r == (self@.pending.len() + more > 0 ==> compression::fits::<T>(
                self@.pending.len() + more,
            )),
    {
        let zero: T = T::zeroed();
        let size: usize = zero.to_bytes().len();
        proof {
            zero.lemma_bytes_len();
        }
        let pending: usize = self.pending.len();
        if more > usize::MAX - pending {
            proof {
                assert((pending + more) * size >= pending + more || size == 0) by (nonlinear_arith)
                    requires
                        size >= 0,
                        pending + more >= 0,
                ;
            }
            return size == 0;
        }
        let count: usize = pending + more;
        if count == 0 {
            return true;
        }
        proof {
            let len = self@.pending.len() as int;
            assert(count * size == (len + more) * size) by (nonlinear_arith)
                requires
                    count == len + more,
            ;
        }
        match count.checked_mul(size) {
            Some(len) => len <= compression::MAX_BUFFER_SIZE,
            None => false,
        }
    }

    /// Acknowledges a given frame. All inputs with of a prior frame will be dropped.
    ///
    /// This will update the reference input that is used to delta-encode.
    pub fn acknowledge_frame(&mut self, ack_frame: Frame)
        ensures
            final(self)@ == old(self)@.acknowledged(ack_frame),
    {
        let ghost before = |i: FrameInput<T>| i.frame < ack_frame;
        let ghost after = |i: FrameInput<T>| i.frame >= ack_frame;
        let mut kept: VecDeque<FrameInput<T>> = VecDeque::new();
        let mut idx: usize = 0;
        proof {
            reveal(Seq::filter);
        }
        while idx < self.pending.len()
            invariant
                idx <= self.pending@.len(),
                self.pending@ == old(self).pending@,
                self.last_encoded == old(self).last_encoded,
                before == (|i: FrameInput<T>| i.frame < ack_frame),
                after == (|i: FrameInput<T>| i.frame >= ack_frame),
                kept@ == self.pending@.take(idx as int).filter(after),
                self.last_acked == (if self.pending@.take(idx as int).filter(before).len() > 0 {
                    self.pending@.take(idx as int).filter(before).last()
                } else {
                    old(self).last_acked
                }),
            decreases self.pending@.len() - idx,
        {
            proof {
                reveal(Seq::filter);
                assert(self.pending@.take(idx + 1).drop_last() =~= self.pending@.take(idx as int));
            }
            let input: FrameInput<T> = self.pending[idx];
            if input.frame < ack_frame {
                self.last_acked = input;
            } else {
                kept.push_back(input);
            }
            idx += 1;
        }
        assert(self.pending@.take(idx as int) =~= self.pending@);
        self.pending = kept;
    }

    /// Encodes all pending output as a byte buffer.
    ///
    /// To minimize the size of the produced buffer, the sequence of is delta encoded by
    /// `compression::encode` relative to the last acknowledged input, which is updated via
    /// `acknowledge_frame`.
    ///
    /// This will not remove any of the inputs in the queue, but will update the value
    /// returned by `last_encoded_frame` to reflect the highest frame that has been encoded.
    pub fn encode(&mut self) -> (r: Result<(Frame, Vec<u8>), EncodeError>)
        ensures
            match r {
                Ok((start_frame, bits)) => {
                    &&& old(self)@.is_sendable()
                    &&& start_frame == old(self)@.start_frame()
                    &&& bits@ == old(self)@.bits()
                    &&& final(self)@ == old(self)@.sent()
                },
                Err(EncodeError::TooBig { len }) => {
                    &&& !old(self)@.is_sendable()
                    &&& compression::first_overflow::<T>(len as int)
                    &&& final(self)@ == old(self)@
                },
            },
    {
        if self.pending.len() > 0 {
            let start_frame: Frame = self.pending[0].frame;
            let mut inputs: Vec<T> = Vec::new();
            let mut idx: usize = 0;
            while idx < self.pending.len()
                invariant
                    idx <= self.pending@.len(),
                    inputs@ == self@.values().take(idx as int),
                decreases self.pending@.len() - idx,
            {
                inputs.push(self.pending[idx].input);
                idx += 1;
                assert(inputs@ =~= self@.values().take(idx as int));
            }
            assert(inputs@ =~= self@.values());
            match compression::encode(&self.last_acked.input, inputs.as_slice()) {
                Ok(bits) => {
                    self.last_encoded = self.pending[self.pending.len() - 1];
                    Ok((start_frame, bits))
                },
                Err(err) => Err(err),
            }
        } else {
            Ok((self.last_acked.frame, Vec::new()))
        }
    }
}

/// How many of the inputs from a frame on are not newer than the last one decoded.
pub open spec fn stale_count(last_decoded: Frame, start_frame: Frame, count: int) -> int {
    if last_decoded < start_frame || last_decoded < 0 {
        0
    } else if last_decoded - start_frame + 1 > count {
        count
    } else {
        last_decoded - start_frame + 1
    }
}

/// A stateful decoder that decodes delta patches created by `InputEncoder`.
pub struct InputDecoder<T> {
    last_decoded: FrameInput<T>,
}

impl<T: InputValue> View for InputDecoder<T> {
    type V = FrameInput<T>;

    /// The last input that was decoded.
    closed spec fn view(&self) -> FrameInput<T> {
        self.last_decoded
    }
}

/// Whether a buffer tells inputs: it holds nothing but a bitfield, and not too long a one.
pub open spec fn tells_inputs(bits: Seq<u8>) -> bool {
    &&& bitfield::decoded_end(bits, 0) == bits.len()
    &&& bitfield::decoded(bits, 0).len() <= compression::MAX_BUFFER_SIZE
}

/// Whether a buffer can be read, and its inputs, if it tells any, have frames.
pub open spec fn can_decode<T: InputValue>(
    last_decoded: FrameInput<T>,
    start_frame: Frame,
    bits: Seq<u8>,
) -> bool {
    &&& T::size() > 0
    &&& bitfield::is_bitfield(bits, 0)
    &&& last_decoded.frame < 0 ==> start_frame > i32::MIN
    &&& tells_inputs(bits) ==> start_frame + bitfield::decoded(bits, 0).len() / T::size() - 1
        <= i32::MAX
}

/// Whether `inputs` are those that a buffer tells, without those that are not newer than
/// the last input that was decoded. They are told by the differences that belong to them,
/// relative to that input.
pub open spec fn is_decoded<T: InputValue>(
    last_decoded: FrameInput<T>,
    start_frame: Frame,
    delta: Seq<u8>,
    inputs: Seq<FrameInput<T>>,
) -> bool {
    let count = (delta.len() / T::size()) as int;
    let stale = stale_count(last_decoded.frame, start_frame, count);
    &&& inputs.len() == count - stale
    &&& forall|i: int|
        0 <= i < inputs.len() ==> (#[trigger] inputs[i]).frame == start_frame + stale + i
            && inputs[i].input.bytes() == compression::undelta(
            last_decoded.input.bytes(),
            delta.skip(stale * T::size()),
            i,
        )
}

/// The inputs that a buffer tells, without those that are not newer than the last input
/// that was decoded.
pub open spec fn decoded_inputs<T: InputValue>(
    last_decoded: FrameInput<T>,
    start_frame: Frame,
    bits: Seq<u8>,
) -> Seq<FrameInput<T>> {
    choose|inputs: Seq<FrameInput<T>>|
        is_decoded(last_decoded, start_frame, bitfield::decoded(bits, 0), inputs)
}

/// A buffer does not tell other inputs at the same time.
pub proof fn lemma_decoded_inputs<T: InputValue>(
    last_decoded: FrameInput<T>,
    start_frame: Frame,
    bits: Seq<u8>,
    inputs: Seq<FrameInput<T>>,
)
    requires
        is_decoded(last_decoded, start_frame, bitfield::decoded(bits, 0), inputs),
    ensures
        decoded_inputs(last_decoded, start_frame, bits) == inputs,
{
    let delta = bitfield::decoded(bits, 0);
    let chosen = decoded_inputs(last_decoded, start_frame, bits);
    assert(is_decoded(last_decoded, start_frame, delta, chosen));
    assert forall|i: int| 0 <= i < inputs.len() implies inputs[i] == chosen[i] by {
        inputs[i].input.lemma_bytes_tell(chosen[i].input);
    }
    assert(inputs =~= chosen);
}

impl<T: InputValue> Default for InputDecoder<T> {
    fn default() -> (r: Self)
        ensures
            r@ == (FrameInput { frame: NULL_FRAME, input: T::zero() }),
    {
        Self { last_decoded: FrameInput::default() }
    }
}

impl<T: InputValue> InputDecoder<T> {
    /// Gets the frame of the most recently decoded input if available.
    ///
    /// If no input has been decoded yet, this will be the null frame.
    pub fn last_decoded_frame(&self) -> (r: Frame)
        ensures
            r == self@.frame,
    {
        self.last_decoded.frame
    }

    /// Resets the internal state of the decoder to its default.
    pub fn reset(&mut self)
        ensures
            final(self)@ == (FrameInput { frame: NULL_FRAME, input: T::zero() }),
    {
        self.last_decoded = FrameInput::default();
    }

    /// Tells whether a buffer can be decoded from a frame on.
    pub fn admits(&self, start_frame: Frame, bits: &[u8]) -> (r: bool)
        ensures
            r == can_decode(self@, start_frame, bits@),
    {
        let zero: T = T::zeroed();
        let size: usize = zero.to_bytes().len();
        proof {
            zero.lemma_bytes_len();
        }
        if size == 0 || !bitfield::is_decodable(bits, 0) {
            return false;
        }
        if is_null(self.last_decoded.frame) && start_frame == i32::MIN {
            return false;
        }
        match bitfield::decode_len(bits) {
            Ok(len) => {
                if len > compression::MAX_BUFFER_SIZE {
                    true
                } else {
                    let count: usize = len / size;
                    proof {
                        vstd::arithmetic::div_mod::lemma_div_is_ordered_by_denominator(
                            len as int,
                            1,
                            size as int,
                        );
                        vstd::arithmetic::div_mod::lemma_div_basics(len as int);
                    }
                    start_frame as i64 + count as i64 - 1 <= i32::MAX as i64
                }
            },
            Err(_) => true,
        }
    }

    /// Decodes the inputs from a frame on that are newer than those that were decoded.
    pub fn decode(&mut self, start_frame: Frame, bits: &[u8]) -> (r: Result<
        Vec<FrameInput<T>>,
        DecodeError,
    >)
        requires
            can_decode(old(self)@, start_frame, bits@),
        ensures
            match r {
                Ok(inputs) => {
                    &&& tells_inputs(bits@)
                    &&& is_decoded(
                        old(self)@,
                        start_frame,
                        bitfield::decoded(bits@, 0),
                        inputs@,
                    )
                    &&& final(self)@ == (if inputs@.len() == 0 {
                        old(self)@
                    } else {
                        inputs@.last()
                    })
                },
                Err(DecodeError::InvalidRLEBitfield { offset, len }) => {
                    &&& bitfield::decoded_end(bits@, 0) > bits@.len()
                    &&& offset == bitfield::decoded_end(bits@, 0)
                    &&& len == bits@.len()
                    &&& final(self)@ == old(self)@
                },
                Err(DecodeError::TooBig { len }) => {
                    &&& bitfield::decoded_end(bits@, 0) == bits@.len()
                    &&& len == bitfield::decoded(bits@, 0).len()
                    &&& len > compression::MAX_BUFFER_SIZE
                    &&& final(self)@ == old(self)@
                },
                Err(DecodeError::Cast(_)) => false,
            },
    {
        let delta: Vec<u8> = match compression::read_delta(bits) {
            Ok(delta) => delta,
            Err(err) => {
                return Err(err);
            },
        };
        let size: usize = self.last_decoded.input.to_bytes().len();
        proof {
            self.last_decoded.input.lemma_bytes_len();
        }
        let count: usize = delta.len() / size;
        proof {
            vstd::arithmetic::div_mod::lemma_div_is_ordered_by_denominator(
                delta@.len() as int,
                1,
                size as int,
            );
            vstd::arithmetic::div_mod::lemma_div_basics(delta@.len() as int);
        }
        let stale: usize = self.count_stale(start_frame, count);
        proof {
            lemma_skip_values(delta@.len() as int, stale as int, size as int);
        }
        let rest: &[u8] = vstd::slice::slice_subrange(delta.as_slice(), stale * size, delta.len());
        assert(rest@ =~= delta@.skip(stale * size));
        let values: Vec<T> = match compression::apply_delta(&self.last_decoded.input, rest) {
            Ok(values) => values,
            Err(err) => {
                return Err(err);
            },
        };
        let mut inputs: Vec<FrameInput<T>> = Vec::new();
        let mut idx: usize = 0;
        while idx < values.len()
            invariant
                idx <= values@.len(),
                values@.len() == count - stale,
                stale <= count <= compression::MAX_BUFFER_SIZE,
                start_frame + count - 1 <= i32::MAX,
                self@ == old(self)@,
                inputs@.len() == idx,
                forall|i: int|
                    0 <= i < inputs@.len() ==> (#[trigger] inputs@[i]).frame == start_frame + stale
                        + i && inputs@[i].input == values@[i],
            decreases values@.len() - idx,
        {
            let frame: Frame = start_frame + (stale + idx) as Frame;
            inputs.push(FrameInput { frame, input: values[idx] });
            idx += 1;
        }
        if inputs.len() > 0 {
            self.last_decoded = inputs[inputs.len() - 1];
        }
        Ok(inputs)
    }

    /// How many of the inputs from a frame on are not newer than the last one decoded.
    fn count_stale(&self, start_frame: Frame, count: usize) -> (r: usize)
        requires
            count <= compression::MAX_BUFFER_SIZE,
        ensures
            r == stale_count(self@.frame, start_frame, count as int),
            r <= count,
    {
        let last: Frame = self.last_decoded.frame;
        if is_null(last) || last < start_frame {
            return 0;
        }
        let ahead: i64 = last as i64 - start_frame as i64 + 1;
        if ahead > count as i64 {
            count
        } else {
            ahead as usize
        }
    }
}

/// What is left of the differences after those of the first values.
proof fn lemma_skip_values(len: int, first: int, size: int)
    requires
        0 <= len,
        0 < size,
        0 <= first <= len / size,
    ensures
        0 <= first * size <= len,
        (len - first * size) / size == len / size - first,
{
    vstd::arithmetic::div_mod::lemma_fundamental_div_mod(len, size);
    vstd::arithmetic::mul::lemma_mul_inequality(first, len / size, size);
    vstd::arithmetic::mul::lemma_mul_nonnegative(first, size);
    vstd::arithmetic::mul::lemma_mul_is_commutative(size, len / size);
    vstd::arithmetic::div_mod::lemma_hoist_over_denominator(len, -first, size as nat);
    vstd::arithmetic::mul::lemma_mul_unary_negation(first, size);
}

impl<T: InputValue> EncoderView<T> {
    /// Whether the pending inputs belong to consecutive frames.
    pub open spec fn is_consecutive(self) -> bool {
        forall|i: int|
            0 <= i < self.pending.len() ==> (#[trigger] self.pending[i]).frame
                == self.pending[0].frame + i
    }

    /// The pending inputs that are new to a decoder.
    pub open spec fn news(self, last_decoded: FrameInput<T>) -> Seq<FrameInput<T>> {
        self.pending.skip(
            stale_count(last_decoded.frame, self.start_frame(), self.pending.len() as int),
        )
    }
}

impl<T: InputValue> EncoderView<T> {
    /// Whether the last input of a decoder is the one that was pushed for its frame: one of
    /// the pending ones, or the last that was acknowledged.
    pub open spec fn agrees_with(self, last_decoded: FrameInput<T>) -> bool {
        if self.pending.len() == 0 || last_decoded.frame < 0 || last_decoded.frame
            < self.pending[0].frame {
            last_decoded.input == self.last_acked.input
        } else {
            let idx = last_decoded.frame - self.pending[0].frame;
            idx < self.pending.len() ==> last_decoded.input == self.pending[idx].input
        }
    }
}

/// What an encoder sends is what a decoder gives out, without what it has given out before,
/// whether or not that was acknowledged.
pub proof fn law_decode_of_encode<T: InputValue>(
    encoder: EncoderView<T>,
    last_decoded: FrameInput<T>,
    inputs: Seq<FrameInput<T>>,
)
    requires
        T::size() > 0,
        encoder.pending.len() > 0,
        encoder.is_sendable(),
        encoder.is_consecutive(),
        encoder.agrees_with(last_decoded),
        last_decoded.frame < 0 ==> encoder.start_frame() > i32::MIN,
    ensures
        can_decode(last_decoded, encoder.start_frame(), encoder.bits()),
        tells_inputs(encoder.bits()),
        is_decoded(
            last_decoded,
            encoder.start_frame(),
            bitfield::decoded(encoder.bits(), 0),
            inputs,
        ) <==> inputs == encoder.news(last_decoded),
{
    let values = encoder.values();
    let base = encoder.last_acked.input;
    let d = bitfield::decoded(encoder.bits(), 0);
    let news = encoder.news(last_decoded);
    compression::law_decode_of_encode(base, values, values);
    let stale = stale_count(last_decoded.frame, encoder.start_frame(), values.len() as int);
    let told = values.skip(stale);
    compression::law_rest_is_told_by_the_last_value(base, values, stale, told);
    let rest = d.skip(stale * T::size());
    if stale < values.len() {
        assert(compression::reference(base, values, stale) == last_decoded.input);
    }
    assert forall|i: int| 0 <= i < news.len() implies (#[trigger] news[i]).input.bytes()
        == compression::undelta(last_decoded.input.bytes(), rest, i) && news[i].frame
        == encoder.start_frame() + stale + i by {
        assert(news[i] == encoder.pending[stale + i]);
        assert(told[i] == values[stale + i]);
        assert(told[i].bytes() == compression::undelta(last_decoded.input.bytes(), rest, i));
    }
    if is_decoded(last_decoded, encoder.start_frame(), d, inputs) {
        assert forall|i: int| 0 <= i < inputs.len() implies inputs[i] == news[i] by {
            inputs[i].input.lemma_bytes_tell(news[i].input);
        }
        assert(inputs =~= news);
    }
}

/// How many of some consecutive inputs are from before a frame.
spec fn older_count<T>(inputs: Seq<FrameInput<T>>, frame: Frame) -> int {
    if inputs.len() == 0 || frame <= inputs[0].frame {
        0
    } else if frame - inputs[0].frame > inputs.len() {
        inputs.len() as int
    } else {
        frame - inputs[0].frame
    }
}

proof fn lemma_filter_consecutive<T>(inputs: Seq<FrameInput<T>>, frame: Frame)
    requires
        forall|i: int|
            0 <= i < inputs.len() ==> (#[trigger] inputs[i]).frame == inputs[0].frame + i,
    ensures
        inputs.filter(|i: FrameInput<T>| i.frame >= frame) == inputs.skip(
            older_count(inputs, frame),
        ),
        inputs.filter(|i: FrameInput<T>| i.frame < frame) == inputs.take(
            older_count(inputs, frame),
        ),
    decreases inputs.len(),
{
    reveal(Seq::filter);
    let after = |i: FrameInput<T>| i.frame >= frame;
    let before = |i: FrameInput<T>| i.frame < frame;
    if inputs.len() > 0 {
        let rest = inputs.drop_last();
        assert(forall|i: int| 0 <= i < rest.len() ==> #[trigger] rest[i] == inputs[i]);
        lemma_filter_consecutive(rest, frame);
    }
    assert(inputs.filter(after) =~= inputs.skip(older_count(inputs, frame)));
    assert(inputs.filter(before) =~= inputs.take(older_count(inputs, frame)));
}

/// Inputs of consecutive frames stay so while the next ones are pushed and some are
/// acknowledged. The acknowledged ones leave from the front, and the last of them is the
/// one that the others are told by.
pub proof fn law_pending_inputs_stay_consecutive<T: InputValue>(
    encoder: EncoderView<T>,
    input: FrameInput<T>,
    ack_frame: Frame,
)
    requires
        encoder.is_consecutive(),
    ensures
        encoder.pending.len() > 0 && input.frame == encoder.pending.last().frame + 1 ==> (
        EncoderView { pending: encoder.pending.push(input), ..encoder }).is_consecutive(),
        encoder.acknowledged(ack_frame).is_consecutive(),
        encoder.acknowledged(ack_frame).pending.is_suffix_of(encoder.pending),
        ({
            let after = encoder.acknowledged(ack_frame);
            let gone = encoder.pending.len() - after.pending.len();
            after.last_acked == (if gone > 0 {
                encoder.pending[gone - 1]
            } else {
                encoder.last_acked
            })
        }),
{
    lemma_filter_consecutive(encoder.pending, ack_frame);
    let after = encoder.acknowledged(ack_frame);
    let gone = older_count(encoder.pending, ack_frame);
    assert(after.pending == encoder.pending.skip(gone));
    assert forall|i: int| 0 <= i < after.pending.len() implies (#[trigger] after.pending[i]).frame
        == after.pending[0].frame + i by {
        assert(after.pending[i] == encoder.pending[gone + i]);
        assert(after.pending[0] == encoder.pending[gone]);
    }
    assert(encoder.before(ack_frame) == encoder.pending.take(gone));
}

/// The two ends go on to agree on the last input that has come, while the next inputs are
/// pushed, while what has come is acknowledged, and when what is pending comes.
pub proof fn law_ends_go_on_to_agree<T: InputValue>(
    encoder: EncoderView<T>,
    last_decoded: FrameInput<T>,
    input: FrameInput<T>,
    ack_frame: Frame,
)
    requires
        encoder.is_consecutive(),
        encoder.agrees_with(last_decoded),
        encoder.pending.len() > 0 ==> 0 <= encoder.pending[0].frame && last_decoded.frame
            <= encoder.pending.last().frame,
    ensures
        (if encoder.pending.len() > 0 {
            input.frame == encoder.pending.last().frame + 1
        } else {
            input.frame > last_decoded.frame
        }) ==> (EncoderView { pending: encoder.pending.push(input), ..encoder }).agrees_with(
            last_decoded,
        ),
        ack_frame <= last_decoded.frame + 1 ==> encoder.acknowledged(ack_frame).agrees_with(
            last_decoded,
        ),
        encoder.pending.len() > 0 ==> encoder.agrees_with(encoder.pending.last()),
{
    lemma_filter_consecutive(encoder.pending, ack_frame);
    let gone = older_count(encoder.pending, ack_frame);
    let after = encoder.acknowledged(ack_frame);
    assert(after.pending == encoder.pending.skip(gone));
    assert(encoder.before(ack_frame) == encoder.pending.take(gone));
    if encoder.pending.len() > 0 {
        assert(encoder.pending.last().frame == encoder.pending[0].frame + encoder.pending.len()
            - 1);
        if gone < encoder.pending.len() {
            assert(after.pending[0] == encoder.pending[gone]);
            assert(encoder.pending[gone].frame == encoder.pending[0].frame + gone);
        }
    }
}

/// Until something is pushed or acknowledged, what is sent stays the same.
pub proof fn law_encode_is_repeatable<T: InputValue>(encoder: EncoderView<T>)
    ensures
        encoder.sent().is_sendable() == encoder.is_sendable(),
        encoder.sent().start_frame() == encoder.start_frame(),
        encoder.sent().bits() == encoder.bits(),
{
}

/// After an acknowledgement nothing from before the acknowledged frame is pending, and
/// nothing from the frame on is lost.
pub proof fn law_acknowledged_inputs_are_dropped<T: InputValue>(
    encoder: EncoderView<T>,
    ack_frame: Frame,
    input: FrameInput<T>,
)
    ensures
        encoder.acknowledged(ack_frame).pending.contains(input) <==> encoder.pending.contains(input)
            && input.frame >= ack_frame,
{
    broadcast use vstd::seq_lib::group_filter_ensures;

    let keep = |i: FrameInput<T>| i.frame >= ack_frame;
    let kept = encoder.pending.filter(keep);
    if kept.contains(input) {
        let k = choose|k: int| 0 <= k < kept.len() && kept[k] == input;
        assert(keep(kept[k]));
        lemma_filtered_was_there(encoder.pending, keep, k);
    }
    if encoder.pending.contains(input) && keep(input) {
        let k = choose|k: int| 0 <= k < encoder.pending.len() && encoder.pending[k] == input;
        assert(kept.contains(encoder.pending[k]));
    }
}

proof fn lemma_filtered_was_there<A>(s: Seq<A>, keep: spec_fn(A) -> bool, i: int)
    requires
        0 <= i < s.filter(keep).len(),
    ensures
        s.contains(s.filter(keep)[i]),
    decreases s.len(),
{
    reveal(Seq::filter);
    let rest = s.drop_last();
    if i < rest.filter(keep).len() {
        lemma_filtered_was_there(rest, keep, i);
        let k = choose|k: int| 0 <= k < rest.len() && rest[k] == rest.filter(keep)[i];
        assert(s[k] == s.filter(keep)[i]);
    } else {
        assert(s[s.len() - 1] == s.filter(keep)[i]);
    }
}

/// The inputs that are given out have consecutive frames up to the last one that is told. All
/// that are told are given out if none were before; else those that are newer than the last.
pub proof fn law_newer_inputs_are_given_out<T: InputValue>(
    last_decoded: FrameInput<T>,
    start_frame: Frame,
    delta: Seq<u8>,
    inputs: Seq<FrameInput<T>>,
    i: int,
)
    requires
        T::size() > 0,
        is_decoded(last_decoded, start_frame, delta, inputs),
        0 <= i,
    ensures
        ({
            let count = (delta.len() / T::size()) as int;
            &&& inputs.len() <= count
            &&& last_decoded.frame < 0 || last_decoded.frame < start_frame ==> inputs.len() == count
            &&& last_decoded.frame >= 0 && last_decoded.frame >= start_frame + count - 1
                && last_decoded.frame >= start_frame ==> inputs.len() == 0
            &&& last_decoded.frame >= 0 && start_frame <= last_decoded.frame < start_frame + count
                ==> inputs.len() == start_frame + count - 1 - last_decoded.frame
            &&& i < inputs.len() ==> {
                &&& inputs[i].frame == start_frame + count - inputs.len() + i
                &&& last_decoded.frame >= 0 ==> inputs[i].frame > last_decoded.frame
            }
        }),
{
    vstd::arithmetic::div_mod::lemma_div_pos_is_pos(delta.len() as int, T::size() as int);
}

/// What is pending begins with the first input that was not acknowledged. A buffer without
/// any is empty, and the last one that was acknowledged stands for its start.
pub proof fn law_start_frame_is_that_of_the_first_input<T: InputValue>(encoder: EncoderView<T>)
    ensures
        encoder.pending.len() > 0 ==> encoder.start_frame() == encoder.pending[0].frame
            && encoder.sent().last_encoded == encoder.pending.last(),
        encoder.pending.len() == 0 ==> encoder.start_frame() == encoder.last_acked.frame
            && encoder.bits().len() == 0 && encoder.sent() == encoder,
        encoder.sent().pending == encoder.pending,
        encoder.sent().last_acked == encoder.last_acked,
        encoder.is_sendable() <==> encoder.pending.len() * T::size() <= 65535,
{
}

} // verus!

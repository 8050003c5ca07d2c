//! Framing and compressing a response.

use vstd::prelude::*;

use crate::budget;
use crate::budget::QueryBudgetError;
use crate::budget::QueryLimitExceeded;
use crate::budget::QueryLimitReason;
use crate::capacity;
use crate::remote_read::errors;
use crate::remote_read::errors::RemoteReadQueryError;
use crate::remote_read::errors::StorageError;
use crate::remote_read::model;
use crate::remote_read::wire;
use crate::sizes;
use crate::text;

verus! {

/// Calls `prost::length_delimiter_len`, which gives the number of bytes that a length takes as a
/// varint.
#[verifier::external_body]
fn length_delimiter_len(len: usize) -> (size: usize)
    ensures
        size == wire::varint_bytes(len as nat).len(),
        1 <= size <= 10,
{
    prost::length_delimiter_len(len)
}

/// Calls `prost::encode_length_delimiter` on an empty buffer, which writes a length as a varint; an
/// empty `Vec` always has room for it.
#[verifier::external_body]
fn length_delimiter(len: usize) -> (bytes: Vec<u8>)
    ensures
        bytes@ == wire::varint_bytes(len as nat),
{
    let mut bytes = Vec::new();
    let _ = prost::encode_length_delimiter(len, &mut bytes);
    bytes
}

/// The most bytes that compressing a number of bytes can give, or zero where there are too many.
pub open spec fn compressed_room(len: nat) -> nat {
    if 32 + len + len / 6 > u32::MAX {
        0
    } else {
        32 + len + len / 6
    }
}

/// Calls `snap::raw::max_compress_len`, which gives `32 + n + n / 6` for `n` bytes, or zero where
/// that does not fit in 32 bits.
#[verifier::external_body]
fn max_compress_len(len: usize) -> (room: usize)
    ensures
        room == compressed_room(len as nat),
{
    snap::raw::max_compress_len(len)
}

/// The bytes that Snappy compresses bytes to.
pub uninterp spec fn snappy_compressed(bytes: Seq<u8>) -> Seq<u8>;

/// The bytes that Snappy decompresses bytes to, or what it says is wrong with them.
pub uninterp spec fn snappy_decompressed(bytes: Seq<u8>) -> Result<Seq<u8>, Seq<char>>;

/// The number that bytes begin with, seven bits to a byte and the lowest first, where it ends
/// within the first few of them.
pub open spec fn leading_number(bytes: Seq<u8>, most: nat) -> Option<nat>
    decreases most,
{
    if most == 0 || bytes.len() == 0 {
        None
    } else if bytes[0] < 128 {
        Some(bytes[0] as nat)
    } else {
        match leading_number(bytes.skip(1), (most - 1) as nat) {
            Some(rest) => Some((bytes[0] - 128) as nat + 128 * rest),
            None => None,
        }
    }
}

/// The number of bytes that compressed bytes say they decompress to, or what is wrong with them: it
/// is the number that they begin with, takes at most five bytes and fits in 32 bits.
pub open spec fn snappy_declared_len(bytes: Seq<u8>) -> Result<usize, Seq<char>> {
    if bytes.len() == 0 {
        Ok(0)
    } else {
        match leading_number(bytes, 5) {
            None => Err("snappy: corrupt input (invalid header)"@),
            Some(len) => if len > u32::MAX {
                Err(
                    "snappy: input buffer (size = "@ + text::decimal(len)
                        + ") is larger than allowed (size = "@ + text::decimal(u32::MAX as nat)
                        + ")"@,
                )
            } else {
                Ok(len as usize)
            },
        }
    }
}

/// Calls `snap::raw::Encoder::compress`, which writes the compressed bytes to the front of the
/// output and gives their number. It succeeds where the input is not too long and the output has
/// the room that `snap::raw::max_compress_len` asks for, and what it wrote decompresses to the
/// input.
#[verifier::external_body]
fn snappy_compress(input: &[u8], output: &mut Vec<u8>) -> (written: Result<usize, String>)
    ensures
        final(output)@.len() == old(output)@.len(),
        written is Ok <==> 0 < compressed_room(input@.len()) <= old(output)@.len(),
        written matches Ok(len) ==> {
            &&& len <= compressed_room(input@.len())
            &&& final(output)@.subrange(0, len as int) == snappy_compressed(input@)
            &&& snappy_decompressed(snappy_compressed(input@)) == Ok::<Seq<u8>, Seq<char>>(input@)
        },
{
    snap::raw::Encoder::new().compress(input, output).map_err(|error| error.to_string())
}

/// Calls `snap::raw::decompress_len`, which reads the length that compressed bytes begin with, and
/// says that the header is invalid where there is none of at most five bytes, or that the input is
/// too large where it does not fit in 32 bits. No bytes at all have the length zero.
#[verifier::external_body]
pub(crate) fn snappy_len(input: &[u8]) -> (len: Result<usize, String>)
    ensures
        match snappy_declared_len(input@) {
            Ok(declared) => len == Ok::<usize, String>(declared),
            Err(message) => len matches Err(text) && text@ == message,
        },
{
    snap::raw::decompress_len(input).map_err(|error| error.to_string())
}

/// Calls `snap::raw::Decoder::decompress_vec`, which gives the decompressed bytes, as many as the
/// compressed bytes begin by saying; what it says of bytes that it cannot decompress is named with
/// them.
#[verifier::external_body]
pub(crate) fn snappy_decompress(input: &[u8]) -> (bytes: Result<Vec<u8>, String>)
    ensures
        match snappy_decompressed(input@) {
            Ok(decompressed) => bytes matches Ok(found) && found@ == decompressed
                && snappy_declared_len(input@) == Ok::<usize, Seq<char>>(found@.len() as usize),
            Err(message) => bytes matches Err(text) && text@ == message,
        },
{
    snap::raw::Decoder::new().decompress_vec(input).map_err(|error| error.to_string())
}

/// A query result as it stands in a response: the first field of the response, with its length.
pub open spec fn result_frame(message: Seq<u8>) -> Seq<u8> {
    wire::delimited_frame(1, message)
}

/// The bytes that a query result of a length takes in a response.
pub open spec fn frame_len(message_bytes: nat) -> nat {
    1 + wire::varint_bytes(message_bytes).len() + message_bytes
}

/// The refusal of a response that would be too long.
pub open spec fn too_long(max: usize, len: nat, requested: nat) -> QueryBudgetError {
    QueryBudgetError::LimitExceeded(
        QueryLimitExceeded {
            reason: QueryLimitReason::ReturnedBytes,
            limit: max as u64,
            current: len as u64,
            requested: sizes::sat_size(requested as int) as u64,
        },
    )
}

/// A response that is being framed: its bytes, how many units its results count, the most bytes it
/// may have, and the bytes that are reserved for it where any are.
#[derive(Debug)]
pub struct RemoteReadResponseEncoder {
    pub raw: Vec<u8>,
    pub result_units: usize,
    pub max_encoded_bytes: usize,
    pub reserved: Option<u64>,
}

/// A response that was framed.
#[derive(Debug)]
pub struct EncodedRemoteReadResponse {
    pub raw: Vec<u8>,
}

/// A response that was compressed, with the bytes that are reserved for it.
#[derive(Debug)]
pub struct CompressedRemoteReadResponse {
    pub body: Vec<u8>,
    pub reserved: u64,
}

impl RemoteReadResponseEncoder {
    /// An empty response without a reservation.
    pub fn with_limit(max_encoded_bytes: usize) -> (encoder: RemoteReadResponseEncoder)
        ensures
            encoder.raw@ == Seq::<u8>::empty(),
            encoder.result_units == 0,
            encoder.max_encoded_bytes == max_encoded_bytes,
            encoder.reserved is None,
    {
        RemoteReadResponseEncoder {
            raw: Vec::new(),
            result_units: 0,
            max_encoded_bytes,
            reserved: None,
        }
    }

    /// An empty response, with a reservation that has no bytes yet.
    pub fn with_execution_limit<R: FnOnce(u64) -> Result<(), QueryBudgetError>>(
        max_encoded_bytes: usize,
        reserve: R,
    ) -> (encoder: Result<RemoteReadResponseEncoder, RemoteReadQueryError>)
        requires
            call_requires(reserve, (0u64,)),
        ensures
            match encoder {
                Ok(encoder) => {
                    &&& encoder.raw@ == Seq::<u8>::empty()
                    &&& encoder.result_units == 0
                    &&& encoder.max_encoded_bytes == max_encoded_bytes
                    &&& encoder.reserved == Some(0u64)
                    &&& budget::granted(reserve, 0)
                },
                Err(error) => error matches RemoteReadQueryError::Budget(refusal)
                    && budget::refused(reserve, 0, refusal),
            },
            budget::always_grants(reserve) ==> encoder is Ok,
    {
        match reserve(0) {
            Err(error) => Err(RemoteReadQueryError::Budget(error)),
            Ok(_) => Ok(
                RemoteReadResponseEncoder {
                    raw: Vec::new(),
                    result_units: 0,
                    max_encoded_bytes,
                    reserved: Some(0),
                },
            ),
        }
    }

    /// Whether a query result that is encoded to so many bytes still fits.
    pub open spec fn fits(self, message_bytes: nat) -> bool {
        self.raw@.len() + frame_len(message_bytes) <= self.max_encoded_bytes
    }

    /// The bytes that are reserved for the response once a query result is appended, before the
    /// room that it has is known.
    pub open spec fn next_bytes(self, message_bytes: nat) -> u64 {
        model::list_bytes(self.raw@.len() + frame_len(message_bytes), 1)
    }

    /// Whether bytes are those of the response with one more query result, as it may be encoded.
    pub open spec fn extended<E: FnOnce() -> Vec<u8>>(self, encode: E, after: Seq<u8>) -> bool {
        exists|message: Vec<u8>| #[trigger]
            call_ensures(encode, (), message) && after == self.raw@ + result_frame(message@)
    }

    /// Whether what is reserved for the response is changed to bytes: a query result fits, and they
    /// are those that were reserved before, or at least those that the response then takes.
    pub open spec fn may_resize(self, message_bytes: nat, bytes: u64) -> bool {
        self.fits(message_bytes) && (self.reserved matches Some(previous) && (bytes == previous
            || bytes >= self.next_bytes(message_bytes)))
    }

    /// Whether the bytes of a query result are charged: it fits, and the memory for it was granted.
    pub open spec fn charges<R: Fn(u64) -> Result<(), QueryBudgetError>>(
        self,
        message_bytes: nat,
        resize: R,
    ) -> bool {
        self.fits(message_bytes) && (self.reserved is Some ==> budget::granted(
            resize,
            self.next_bytes(message_bytes),
        ))
    }

    /// Whether a query result is encoded: it fits, and what it takes was granted.
    pub open spec fn encodes<
        R: Fn(u64) -> Result<(), QueryBudgetError>,
        B: Fn(u64) -> Result<(), QueryBudgetError>,
    >(self, message_bytes: nat, resize: R, charge: B) -> bool {
        self.charges(message_bytes, resize) && budget::granted(
            charge,
            frame_len(message_bytes) as u64,
        )
    }

    /// Whether the reservation is left like this where the returned bytes were refused: it was
    /// raised first, and is put back unless that is refused too.
    pub open spec fn put_back<R: Fn(u64) -> Result<(), QueryBudgetError>>(
        self,
        message_bytes: nat,
        reserved: Option<u64>,
        resize: R,
    ) -> bool {
        match self.reserved {
            None => reserved is None,
            Some(previous) => {
                &&& budget::granted(resize, self.next_bytes(message_bytes))
                &&& {
                    ||| reserved == Some(previous) && budget::granted(resize, previous)
                    ||| reserved == Some(self.next_bytes(message_bytes)) && exists|
                        refusal: QueryBudgetError,
                    | #[trigger]
                        budget::refused(resize, previous, refusal)
                }
            },
        }
    }

    /// Whether a refusal to take a query result is warranted, with the bytes and the reservation as
    /// they are after it.
    pub open spec fn warranted<
        C: Fn() -> Result<(), QueryBudgetError>,
        R: Fn(u64) -> Result<(), QueryBudgetError>,
        B: Fn(u64) -> Result<(), QueryBudgetError>,
        E: FnOnce() -> Vec<u8>,
    >(
        self,
        message_bytes: nat,
        encode: E,
        error: RemoteReadQueryError,
        after: Seq<u8>,
        reserved: Option<u64>,
        checkpoint: C,
        resize: R,
        charge: B,
    ) -> bool {
        let frame_bytes = frame_len(message_bytes);
        ||| {
            &&& after == self.raw@
            &&& reserved == self.reserved
            &&& error matches RemoteReadQueryError::Budget(refusal) && budget::may_stop(
                checkpoint,
                refusal,
            )
        }
        ||| {
            &&& after == self.raw@
            &&& reserved == self.reserved
            &&& !self.fits(message_bytes)
            &&& error == RemoteReadQueryError::Budget(
                too_long(self.max_encoded_bytes, self.raw@.len(), frame_bytes),
            )
        }
        ||| {
            &&& after == self.raw@
            &&& reserved == self.reserved
            &&& self.fits(message_bytes)
            &&& self.reserved is Some
            &&& exists|refusal: QueryBudgetError| #[trigger]
                budget::refused(resize, self.next_bytes(message_bytes), refusal)
                    && errors::memory_refusal(
                    refusal,
                    "failed to reserve remote-read response memory"@,
                    error,
                )
        }
        ||| {
            &&& after == self.raw@
            &&& self.put_back(message_bytes, reserved, resize)
            &&& self.fits(message_bytes)
            &&& error matches RemoteReadQueryError::Storage {
                context,
                error: StorageError::QueryBudget(refusal),
            } && context@ == "remote-read response exceeded the query budget"@ && budget::refused(
                charge,
                frame_bytes as u64,
                refusal,
            )
        }
        ||| {
            &&& self.extended(encode, after)
            &&& reserved == Some(self.next_bytes(message_bytes))
            &&& budget::granted(resize, self.next_bytes(message_bytes))
            &&& budget::granted(charge, frame_bytes as u64)
            &&& self.fits(message_bytes)
            &&& self.reserved is Some
            &&& exists|capacity: usize, refusal: QueryBudgetError|
                capacity >= after.len() && #[trigger] budget::refused(
                    resize,
                    model::list_bytes(capacity as nat, 1),
                    refusal,
                ) && errors::memory_refusal(
                    refusal,
                    "failed to reconcile remote-read response memory"@,
                    error,
                )
        }
    }

    fn returned_bytes_error(&self, requested: usize) -> (error: RemoteReadQueryError)
        ensures
            error == RemoteReadQueryError::Budget(
                too_long(self.max_encoded_bytes, self.raw@.len(), requested as nat),
            ),
    {
        RemoteReadQueryError::Budget(
            QueryBudgetError::LimitExceeded(
                QueryLimitExceeded {
                    reason: QueryLimitReason::ReturnedBytes,
                    limit: self.max_encoded_bytes as u64,
                    current: self.raw.len() as u64,
                    requested: requested as u64,
                },
            ),
        )
    }

    /// Checks that a query result that is encoded to so many bytes still fits, and gives the bytes
    /// of its frame. Nothing has to be encoded for that.
    pub fn check_fits(&self, message_bytes: usize) -> (checked: Result<
        usize,
        RemoteReadQueryError,
    >)
        ensures
            match checked {
                Ok(frame) => frame == frame_len(message_bytes as nat) && self.raw@.len() + frame
                    <= self.max_encoded_bytes,
                Err(error) => {
                    &&& self.raw@.len() + frame_len(message_bytes as nat) > self.max_encoded_bytes
                    &&& error == RemoteReadQueryError::Budget(
                        too_long(
                            self.max_encoded_bytes,
                            self.raw@.len(),
                            frame_len(message_bytes as nat),
                        ),
                    )
                },
            },
    {
        let frame_bytes: usize = match (1 + length_delimiter_len(message_bytes)).checked_add(
            message_bytes,
        ) {
            Some(bytes) => bytes,
            None => {
                return Err(self.returned_bytes_error(usize::MAX));
            },
        };
        match self.raw.len().checked_add(frame_bytes) {
            Some(next) => {
                if next > self.max_encoded_bytes {
                    return Err(self.returned_bytes_error(frame_bytes));
                }
                Ok(frame_bytes)
            },
            None => Err(self.returned_bytes_error(frame_bytes)),
        }
    }

    /// Appends a query result of a number of units, which is encoded to so many bytes: `encode`
    /// encodes it, once it is known to fit and what it takes was granted, `checkpoint` asks whether
    /// to go on, `resize` changes what is reserved for the response, and `charge` counts the bytes
    /// that are returned.
    pub fn append<
        C: Fn() -> Result<(), QueryBudgetError>,
        R: Fn(u64) -> Result<(), QueryBudgetError>,
        B: Fn(u64) -> Result<(), QueryBudgetError>,
        E: FnOnce() -> Vec<u8>,
    >(
        &mut self,
        message_bytes: usize,
        encode: E,
        units: usize,
        checkpoint: &C,
        resize: &R,
        charge: &B,
    ) -> (appended: Result<(), RemoteReadQueryError>)
        requires
            call_requires(*checkpoint, ()),
            forall|bytes: u64|
                budget::may_pass(*checkpoint) && old(self).may_resize(message_bytes as nat, bytes)
                    ==> #[trigger] call_requires(*resize, (bytes,)),
            budget::may_pass(*checkpoint) && old(self).charges(message_bytes as nat, *resize)
                ==> call_requires(*charge, (frame_len(message_bytes as nat) as u64,)),
            budget::may_pass(*checkpoint) && old(self).encodes(
                message_bytes as nat,
                *resize,
                *charge,
            ) ==> call_requires(encode, ()),
            forall|message: Vec<u8>| #[trigger]
                call_ensures(encode, (), message) ==> message@.len() == message_bytes,
        ensures
            final(self).max_encoded_bytes == old(self).max_encoded_bytes,
            final(self).reserved is Some <==> old(self).reserved is Some,
            match appended {
                Ok(_) => {
                    &&& old(self).fits(message_bytes as nat)
                    &&& old(self).extended(encode, final(self).raw@)
                    &&& final(self).result_units == sizes::sat_size(
                        old(self).result_units + units,
                    )
                    &&& budget::granted(*charge, frame_len(message_bytes as nat) as u64)
                    &&& final(self).reserved matches Some(bytes) ==> {
                        &&& bytes >= model::list_bytes(final(self).raw@.len(), 1)
                        &&& budget::granted(*resize, old(self).next_bytes(message_bytes as nat))
                        &&& budget::granted(*resize, bytes)
                    }
                },
                Err(error) => {
                    &&& final(self).result_units == old(self).result_units
                    &&& old(self).warranted(
                        message_bytes as nat,
                        encode,
                        error,
                        final(self).raw@,
                        final(self).reserved,
                        *checkpoint,
                        *resize,
                        *charge,
                    )
                },
            },
            budget::never_stops(*checkpoint) && !old(self).fits(message_bytes as nat) ==> appended
                == Err::<(), RemoteReadQueryError>(
                RemoteReadQueryError::Budget(
                    too_long(
                        old(self).max_encoded_bytes,
                        old(self).raw@.len(),
                        frame_len(message_bytes as nat),
                    ),
                ),
            ),
            budget::never_stops(*checkpoint) && budget::always_grants(*resize)
                && budget::always_grants(*charge) && old(self).fits(message_bytes as nat)
                ==> appended is Ok,
            budget::always_stops(*checkpoint) ==> {
                &&& appended matches Err(RemoteReadQueryError::Budget(error)) && budget::may_stop(
                    *checkpoint,
                    error,
                )
                &&& *final(self) == *old(self)
            },
    {
        match checkpoint() {
            Err(error) => {
                return Err(RemoteReadQueryError::Budget(error));
            },
            Ok(_) => {},
        }
        let frame_bytes: usize = match self.check_fits(message_bytes) {
            Ok(bytes) => bytes,
            Err(error) => {
                return Err(error);
            },
        };
        let next_bytes: usize = self.raw.len() + frame_bytes;
        let ghost before = *self;
        let previous = self.reserved;
        if previous.is_some() {
            let bytes = model::modeled_text_bytes(next_bytes);
            proof {
                assert(before.may_resize(message_bytes as nat, bytes));
            }
            match resize(bytes) {
                Err(error) => {
                    proof {
                        assert(budget::refused(
                            *resize,
                            before.next_bytes(message_bytes as nat),
                            error,
                        ));
                    }
                    return Err(
                        errors::resize_remote_read_memory(
                            error,
                            "failed to reserve remote-read response memory",
                        ),
                    );
                },
                Ok(_) => {
                    self.reserved = Some(bytes);
                },
            }
        }
        match charge(frame_bytes as u64) {
            Err(error) => {
                if let Some(bytes) = previous {
                    proof {
                        assert(before.may_resize(message_bytes as nat, bytes));
                    }
                    match resize(bytes) {
                        Ok(_) => {
                            self.reserved = previous;
                        },
                        Err(refusal) => {
                            proof {
                                assert(budget::refused(*resize, bytes, refusal));
                            }
                        },
                    }
                }
                return Err(
                    RemoteReadQueryError::storage(
                        "remote-read response exceeded the query budget",
                        StorageError::QueryBudget(error),
                    ),
                );
            },
            Ok(_) => {},
        }
        proof {
            assert(before.encodes(message_bytes as nat, *resize, *charge));
        }
        let message = encode();
        proof {
            assert(call_ensures(encode, (), message));
            assert(result_frame(message@).len() == frame_len(message@.len()));
        }
        let mut delimiter = length_delimiter(message_bytes);
        let mut rest = message;
        let mut longer: Vec<u8> = Vec::with_capacity(next_bytes);
        longer.append(&mut self.raw);
        longer.push(10);
        longer.append(&mut delimiter);
        longer.append(&mut rest);
        self.raw = longer;
        proof {
            assert(self.raw@ =~= before.raw@ + result_frame(message@));
            assert(before.extended(encode, self.raw@));
        }
        if self.reserved.is_some() {
            let capacity = capacity::vec_capacity(&self.raw);
            let bytes = model::modeled_text_bytes(capacity);
            proof {
                assert(before.may_resize(message_bytes as nat, bytes));
            }
            match resize(bytes) {
                Err(error) => {
                    proof {
                        assert(budget::refused(
                            *resize,
                            model::list_bytes(capacity as nat, 1),
                            error,
                        ));
                    }
                    return Err(
                        errors::resize_remote_read_memory(
                            error,
                            "failed to reconcile remote-read response memory",
                        ),
                    );
                },
                Ok(_) => {
                    self.reserved = Some(bytes);
                },
            }
        }
        self.result_units = self.result_units.saturating_add(units);
        Ok(())
    }

    /// The response that was framed, and the units of its results.
    pub fn finish(self) -> (finished: (EncodedRemoteReadResponse, usize))
        ensures
            finished.0.raw@ == self.raw@,
            finished.1 == self.result_units,
    {
        (EncodedRemoteReadResponse { raw: self.raw }, self.result_units)
    }
}

/// Compresses a response: `checkpoint` asks whether to go on, `reserve` reserves the bytes that
/// compressing may take, and `resize` gives back those that it did not. Nothing is reserved for a
/// response that is too large to be compressed.
pub fn compress_remote_read_response<
    C: Fn() -> Result<(), QueryBudgetError>,
    R: FnOnce(u64) -> Result<(), QueryBudgetError>,
    S: FnOnce(u64) -> Result<(), QueryBudgetError>,
>(encoded: &EncodedRemoteReadResponse, checkpoint: &C, reserve: R, resize: S) -> (compressed:
    Result<CompressedRemoteReadResponse, RemoteReadQueryError>)
    requires
        call_requires(*checkpoint, ()),
        budget::may_pass(*checkpoint) && compressed_room(encoded.raw@.len()) > 0 ==> call_requires(
            reserve,
            (model::list_bytes(compressed_room(encoded.raw@.len()), 1),),
        ),
        forall|bytes: u64|
            budget::may_pass(*checkpoint) && compressed_room(encoded.raw@.len()) > 0
                && budget::granted(
                reserve,
                model::list_bytes(compressed_room(encoded.raw@.len()), 1),
            ) ==> #[trigger] call_requires(resize, (bytes,)),
    ensures
        match compressed {
            Ok(response) => {
                &&& compressed_room(encoded.raw@.len()) > 0
                &&& response.body@ == snappy_compressed(encoded.raw@)
                &&& snappy_decompressed(response.body@) == Ok::<Seq<u8>, Seq<char>>(encoded.raw@)
                &&& budget::granted(
                    reserve,
                    model::list_bytes(compressed_room(encoded.raw@.len()), 1),
                )
                &&& budget::granted(resize, response.reserved)
                &&& response.reserved >= model::list_bytes(response.body@.len(), 1)
            },
            Err(error) => {
                ||| error matches RemoteReadQueryError::Budget(refusal) && budget::may_stop(
                    *checkpoint,
                    refusal,
                )
                ||| compressed_room(encoded.raw@.len()) == 0 && error.says_internal(
                    "remote-read response is too large for Snappy"@,
                )
                ||| compressed_room(encoded.raw@.len()) > 0 && (
                error matches RemoteReadQueryError::Budget(refusal) && budget::refused(
                    reserve,
                    model::list_bytes(compressed_room(encoded.raw@.len()), 1),
                    refusal,
                ))
                ||| compressed_room(encoded.raw@.len()) > 0 && exists|
                    capacity: usize,
                    refusal: QueryBudgetError,
                |
                    capacity >= snappy_compressed(encoded.raw@).len() && #[trigger] budget::refused(
                        resize,
                        model::list_bytes(capacity as nat, 1),
                        refusal,
                    ) && errors::memory_refusal(
                        refusal,
                        "failed to reconcile Snappy response memory"@,
                        error,
                    )
            },
        },
        budget::never_stops(*checkpoint) && budget::always_grants(reserve) && budget::always_grants(
            resize,
        ) && compressed_room(encoded.raw@.len()) > 0 ==> compressed is Ok,
        budget::always_stops(*checkpoint) ==> (compressed matches Err(
            RemoteReadQueryError::Budget(error),
        ) && budget::may_stop(*checkpoint, error)),
{
    match checkpoint() {
        Err(error) => {
            return Err(RemoteReadQueryError::Budget(error));
        },
        Ok(_) => {},
    }
    let room = max_compress_len(encoded.raw.len());
    if room == 0 {
        return Err(
            RemoteReadQueryError::Internal(
                text::owned("remote-read response is too large for Snappy"),
            ),
        );
    }
    match reserve(model::modeled_text_bytes(room)) {
        Err(error) => {
            return Err(RemoteReadQueryError::Budget(error));
        },
        Ok(_) => {},
    }
    let mut body: Vec<u8> = Vec::with_capacity(room);
    body.resize(room, 0);
    match snappy_compress(encoded.raw.as_slice(), &mut body) {
        Err(message) => {
            return Err(
                RemoteReadQueryError::Internal(
                    text::text2("snappy encode failed: ", message.as_str()),
                ),
            );
        },
        Ok(len) => {
            body.truncate(len);
        },
    }
    let capacity = capacity::vec_capacity(&body);
    let reserved = model::modeled_text_bytes(capacity);
    match resize(reserved) {
        Err(error) => {
            proof {
                assert(budget::refused(resize, model::list_bytes(capacity as nat, 1), error));
            }
            return Err(
                errors::resize_remote_read_memory(
                    error,
                    "failed to reconcile Snappy response memory",
                ),
            );
        },
        Ok(_) => {},
    }
    match checkpoint() {
        Err(error) => {
            return Err(RemoteReadQueryError::Budget(error));
        },
        Ok(_) => {},
    }
    Ok(CompressedRemoteReadResponse { body, reserved })
}

/// The answer that carries a compressed response: its status, its headers and its body.
#[derive(Debug, PartialEq, Eq)]
pub struct SuccessAnswer {
    pub status: u16,
    pub headers: Vec<(String, String)>,
    pub body: Vec<u8>,
}

/// Headers by their names and their values.
pub open spec fn header_texts(headers: Seq<(String, String)>) -> Seq<(Seq<char>, Seq<char>)> {
    headers.map_values(|header: (String, String)| (header.0@, header.1@))
}

/// The headers that every compressed response has.
pub open spec fn response_headers() -> Seq<(Seq<char>, Seq<char>)> {
    seq![
        ("Content-Type"@, "application/x-protobuf"@),
        ("Content-Encoding"@, "snappy"@),
        ("X-Prometheus-Remote-Read-Version"@, "0.1.0"@),
    ]
}

/// The answer that carries a compressed response. A distributed read is answered with the headers
/// of its read metadata too, behind those that every response has.
pub fn success_answer(
    compressed: CompressedRemoteReadResponse,
    read_metadata: Option<Vec<(String, String)>>,
) -> (answer: SuccessAnswer)
    ensures
        answer.status == 200,
        answer.body == compressed.body,
        header_texts(answer.headers@) == response_headers() + match read_metadata {
            Some(headers) => header_texts(headers@),
            None => Seq::empty(),
        },
{
    let mut headers: Vec<(String, String)> = Vec::new();
    headers.push((text::owned("Content-Type"), text::owned("application/x-protobuf")));
    headers.push((text::owned("Content-Encoding"), text::owned("snappy")));
    headers.push((text::owned("X-Prometheus-Remote-Read-Version"), text::owned("0.1.0")));
    proof {
        assert(header_texts(headers@) =~= response_headers());
        assert(response_headers() + Seq::<(Seq<char>, Seq<char>)>::empty() =~= response_headers());
    }
    if let Some(more) = read_metadata {
        let mut more = more;
        let ghost fixed = headers@;
        let ghost added = more@;
        headers.append(&mut more);
        proof {
            assert(header_texts(fixed + added) =~= header_texts(fixed) + header_texts(added));
        }
    }
    SuccessAnswer { status: 200, headers, body: compressed.body }
}

} // verus!

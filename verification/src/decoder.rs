//! Taking packets off the front of a receive buffer.

use crate::packet;
use crate::packet::{DecodeError, DecodeView, Packet};
use bytes::{Buf, BytesMut};
use vstd::prelude::*;

verus! {

/// A growable buffer of bytes with a moving front.
#[verifier::external_type_specification]
#[verifier::external_body]
pub struct ExBytesMut(BytesMut);

/// The bytes that a buffer holds.
pub uninterp spec fn buffered(buf: BytesMut) -> Seq<u8>;

/// `BytesMut` read as a slice: the bytes that the buffer holds.
#[verifier::external_body]
pub(crate) fn buffer_bytes(buf: &BytesMut) -> (bytes: &[u8])
    ensures
        bytes@ == buffered(*buf),
{
    buf.as_ref()
}

/// `bytes::Buf::advance` on a `BytesMut`: drops `count` bytes at the front,
/// which must be there, and keeps the others.
#[verifier::external_body]
pub(crate) fn buffer_advance(buf: &mut BytesMut, count: usize)
    requires
        count <= buffered(*old(buf)).len(),
    ensures
        buffered(*final(buf)) == buffered(*old(buf)).skip(count as int),
{
    buf.advance(count);
}

/// `BytesMut::extend_from_slice`: appends bytes behind those that the buffer holds.
#[verifier::external_body]
pub(crate) fn buffer_extend(buf: &mut BytesMut, bytes: &[u8])
    ensures
        buffered(*final(buf)) == buffered(*old(buf)) + bytes@,
{
    buf.extend_from_slice(bytes);
}

/// `BytesMut::new`: a buffer that holds nothing.
#[verifier::external_body]
pub(crate) fn buffer_new() -> (buf: BytesMut)
    ensures
        buffered(buf) == Seq::<u8>::empty(),
{
    BytesMut::new()
}

/// Takes packets off a buffer. It keeps nothing between two calls.
pub struct MqttDecoder;

impl MqttDecoder {
    pub fn new() -> (r: Self)
        ensures
            r == MqttDecoder,
    {
        MqttDecoder
    }

    /// Takes one packet off the front of `src`: the packet, nothing while it is
    /// not there in full, or the reason why it cannot be read. Only a packet
    /// that was read leaves the buffer.
    pub fn decode(&mut self, src: &mut BytesMut) -> (r: Result<Option<Packet>, DecodeError>)
        requires
            packet::packet_at(buffered(*old(src))) !is Overlong,
        ensures
            match r {
                Ok(Some(p)) => packet::packet_at(buffered(*old(src))) matches DecodeView::Done(
                    found,
                    size,
                ) && found == p@ && buffered(*final(src)) == buffered(*old(src)).skip(size as int),
                Ok(None) => packet::packet_at(buffered(*old(src))) is Insufficient && *final(src)
                    == *old(src),
                Err(e) => packet::packet_at(buffered(*old(src))) == e.outcome()
                    && e !is InsufficientData && *final(src) == *old(src),
            },
    {
        match packet::decode_packet(buffer_bytes(src)) {
            Ok((p, consumed)) => {
                proof {
                    packet::law_decode_prefix(buffered(*src), Seq::empty(), 5);
                }
                buffer_advance(src, consumed);
                Ok(Some(p))
            },
            Err(DecodeError::InsufficientData) => Ok(None),
            Err(e) => Err(e),
        }
    }
}

} // verus!

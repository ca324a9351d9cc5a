//! The packet stream: packets from the start of the recording up to the
//! terminator, each a control marker or a frame with its orders.

use vstd::prelude::*;
use crate::endian::le_i32;
use crate::error::DecodeError;
use crate::orders::{
    lemma_order_advances, order_at, orders_until, read_order, OrderBody, OrderBodyView, OrderType,
};
use crate::reader::{fits, ReplayReader};

verus! {

/// An order with the client that gave it and the frame it belongs to.
#[derive(Debug, PartialEq, Eq)]
pub struct Order {
    pub client_id: i32,
    pub frame: i32,
    pub body: OrderBody,
}

/// An order as contracts see it.
pub struct OrderView {
    pub client_id: i32,
    pub frame: i32,
    pub body: OrderBodyView,
}

impl View for Order {
    type V = OrderView;

    open spec fn view(&self) -> OrderView {
        OrderView { client_id: self.client_id, frame: self.frame, body: self.body@ }
    }
}

/// The views of a list of orders.
pub open spec fn orders_view(orders: Seq<Order>) -> Seq<OrderView> {
    orders.map_values(|o: Order| o@)
}

/// Order records with the client and the frame of their packet.
pub open spec fn annotated(client_id: i32, frame: i32, bodies: Seq<OrderBodyView>) -> Seq<
    OrderView,
> {
    bodies.map_values(
        |b: OrderBodyView| OrderView { client_id: client_id, frame: frame, body: b },
    )
}

/// One step of the stream.
#[derive(Debug, PartialEq, Eq)]
pub enum Packet {
    /// The terminator: no packet follows.
    End,
    /// A disconnect or synchronisation marker, skipped without a look inside.
    Control { client_id: i32 },
    /// A frame with its orders, in the sequence in which they were written.
    Orders { client_id: i32, frame: i32, orders: Vec<Order> },
}

/// A step of the stream as contracts see it.
pub enum PacketView {
    End,
    Control { client_id: i32 },
    Orders { client_id: i32, frame: i32, orders: Seq<OrderView> },
}

impl View for Packet {
    type V = PacketView;

    open spec fn view(&self) -> PacketView {
        match self {
            Packet::End => PacketView::End,
            Packet::Control { client_id } => PacketView::Control { client_id: *client_id },
            Packet::Orders { client_id, frame, orders } => PacketView::Orders {
                client_id: *client_id,
                frame: *frame,
                orders: orders_view(orders@),
            },
        }
    }
}

/// Whether a packet of `len` bytes whose fifth byte is `tag` is a control packet:
/// a disconnect of exactly five bytes, or a synchronisation marker.
pub open spec fn is_control(len: int, tag: u8) -> bool {
    len >= 5 && ((len == 5 && tag == OrderType::Disconnect.tag()) || tag
        == OrderType::SyncHash.tag())
}

/// The packet at `pos`, and where it ends. A client of `-1` is the terminator.
/// Else a length follows, and the packet ends that many bytes behind it. A
/// control packet is skipped whole; any other packet holds a frame number and
/// order records up to its end exactly.
pub open spec fn packet_at(bytes: Seq<u8>, pos: int, wide: bool) -> Result<
    (PacketView, int),
    DecodeError,
> {
    if !fits(bytes, pos, 4) {
        Err(DecodeError::OutOfBounds)
    } else if le_i32(bytes, pos) == -1 {
        Ok((PacketView::End, pos + 4))
    } else if !fits(bytes, pos + 4, 4) {
        Err(DecodeError::OutOfBounds)
    } else {
        let client_id = le_i32(bytes, pos) as i32;
        let len = le_i32(bytes, pos + 4);
        let end = pos + 8 + len;
        if len < 0 {
            Err(DecodeError::Framing)
        } else if len >= 5 && !fits(bytes, pos + 12, 1) {
            Err(DecodeError::OutOfBounds)
        } else if len >= 5 && is_control(len, bytes[pos + 12]) {
            if end <= bytes.len() {
                Ok((PacketView::Control { client_id: client_id }, end))
            } else {
                Err(DecodeError::OutOfBounds)
            }
        } else if len < 4 {
            Err(DecodeError::Framing)
        } else if !fits(bytes, pos + 8, 4) {
            Err(DecodeError::OutOfBounds)
        } else {
            let frame = le_i32(bytes, pos + 8) as i32;
            match orders_until(bytes, pos + 12, end, wide) {
                Err(e) => Err(e),
                Ok(bodies) => Ok(
                    (
                        PacketView::Orders {
                            client_id: client_id,
                            frame: frame,
                            orders: annotated(client_id, frame, bodies),
                        },
                        end,
                    ),
                ),
            }
        }
    }
}

/// A packet that can be read ends exactly where its length says: that many bytes
/// behind the eight bytes of client and length. The terminator ends behind its
/// four bytes.
pub proof fn lemma_packet_boundary(bytes: Seq<u8>, pos: int, wide: bool)
    requires
        packet_at(bytes, pos, wide) is Ok,
    ensures
        packet_at(bytes, pos, wide)->Ok_0.0 is End ==> packet_at(bytes, pos, wide)->Ok_0.1 == pos
            + 4,
        !(packet_at(bytes, pos, wide)->Ok_0.0 is End) ==> packet_at(bytes, pos, wide)->Ok_0.1
            == pos + 8 + le_i32(bytes, pos + 4) && le_i32(bytes, pos + 4) >= 4,
        pos < packet_at(bytes, pos, wide)->Ok_0.1 <= bytes.len(),
{
    if le_i32(bytes, pos) != -1 {
        let len = le_i32(bytes, pos + 4);
        if !(len >= 5 && is_control(len, bytes[pos + 12])) {
            lemma_orders_end(bytes, pos + 12, pos + 8 + len, wide);
        }
    }
}

/// Order records that fill a range end inside the buffer.
pub proof fn lemma_orders_end(bytes: Seq<u8>, pos: int, end: int, wide: bool)
    requires
        0 <= pos <= bytes.len(),
        orders_until(bytes, pos, end, wide) is Ok,
    ensures
        pos <= end <= bytes.len(),
    decreases
        (if pos <= end {
            end - pos + 1
        } else {
            0
        }),
{
    if pos < end {
        lemma_order_advances(bytes, pos, wide);
        lemma_orders_end(bytes, order_at(bytes, pos, wide)->Ok_0.1, end, wide);
    }
}

proof fn lemma_orders_step(
    bytes: Seq<u8>,
    pos: int,
    end: int,
    wide: bool,
    done: Seq<OrderBodyView>,
)
    requires
        pos < end,
        order_at(bytes, pos, wide) is Ok,
    ensures
        ({
            let (order, next) = order_at(bytes, pos, wide)->Ok_0;
            match orders_until(bytes, next, end, wide) {
                Ok(rest) => orders_until(bytes, pos, end, wide) is Ok && done + orders_until(
                    bytes,
                    pos,
                    end,
                    wide,
                )->Ok_0 == done.push(order) + rest,
                Err(e) => orders_until(bytes, pos, end, wide) == Err::<
                    Seq<OrderBodyView>,
                    DecodeError,
                >(e),
            }
        }),
{
}

proof fn lemma_annotated_push(
    initial: Seq<Order>,
    before: Seq<Order>,
    order: Order,
    done: Seq<OrderBodyView>,
)
    requires
        orders_view(before) == orders_view(initial) + annotated(order.client_id, order.frame, done),
    ensures
        orders_view(before.push(order)) == orders_view(initial) + annotated(
            order.client_id,
            order.frame,
            done.push(order.body@),
        ),
{
    assert(annotated(order.client_id, order.frame, done.push(order.body@)) =~= annotated(
        order.client_id,
        order.frame,
        done,
    ).push(order@));
    assert(orders_view(before).push(order@) =~= orders_view(initial) + annotated(
        order.client_id,
        order.frame,
        done,
    ).push(order@));
}

#[verifier::rlimit(50)]
fn read_orders(
    reader: &mut ReplayReader,
    out: &mut Vec<Order>,
    client_id: i32,
    frame: i32,
    stop: Option<usize>,
    wide: bool,
    Ghost(end): Ghost<int>,
) -> (result: Result<(), DecodeError>)
    requires
        match stop {
            Some(s) => s == end,
            None => end > old(reader)@.bytes.len(),
        },
    ensures
        final(reader)@.bytes == old(reader)@.bytes,
        match orders_until(old(reader)@.bytes, old(reader)@.pos, end, wide) {
            Ok(bodies) => result is Ok && orders_view(final(out)@) == orders_view(old(out)@)
                + annotated(client_id, frame, bodies) && final(reader)@.pos == end,
            Err(e) => result == Err::<(), DecodeError>(e),
        },
{
    let ghost bytes = reader@.bytes;
    let ghost start = reader@.pos;
    let ghost mut done: Seq<OrderBodyView> = Seq::empty();
    assert(done + orders_until(bytes, start, end, wide)->Ok_0 == orders_until(
        bytes,
        start,
        end,
        wide,
    )->Ok_0);
    loop
        invariant
            reader@.bytes == bytes,
            bytes == old(reader)@.bytes,
            start == old(reader)@.pos,
            match stop {
                Some(s) => s == end,
                None => end > bytes.len(),
            },
            orders_view(out@) == orders_view(old(out)@) + annotated(client_id, frame, done),
            match orders_until(bytes, reader@.pos, end, wide) {
                Ok(rest) => orders_until(bytes, start, end, wide) is Ok && orders_until(
                    bytes,
                    start,
                    end,
                    wide,
                )->Ok_0 == done + rest,
                Err(e) => orders_until(bytes, start, end, wide) == Err::<
                    Seq<OrderBodyView>,
                    DecodeError,
                >(e),
            },
        decreases bytes.len() - reader@.pos,
    {
        let pos = reader.pos();
        match stop {
            Some(s) => {
                if pos == s {
                    return Ok(());
                }
                if pos > s {
                    return Err(DecodeError::Framing);
                }
            },
            None => {},
        }
        let body = read_order(reader, wide)?;
        let ghost before = out@;
        let order = Order { client_id: client_id, frame: frame, body: body };
        out.push(order);
        proof {
            lemma_order_advances(bytes, pos as int, wide);
            lemma_orders_step(bytes, pos as int, end, wide, done);
            lemma_annotated_push(old(out)@, before, order, done);
            done = done.push(order.body@);
        }
    }
}

fn read_packet(reader: &mut ReplayReader, wide: bool) -> (result: Result<Packet, DecodeError>)
    ensures
        final(reader)@.bytes == old(reader)@.bytes,
        match packet_at(old(reader)@.bytes, old(reader)@.pos, wide) {
            Ok((packet, end)) => result matches Ok(r) && r@ == packet && final(reader)@.pos
                == end,
            Err(e) => result matches Err(r) && r == e,
        },
{
    let client_id = reader.read_i32()?;
    if client_id == -1 {
        return Ok(Packet::End);
    }
    let len = reader.read_i32()?;
    if len < 0 {
        return Err(DecodeError::Framing);
    }
    let body = reader.pos();
    let remaining = reader.len() - body;
    if len >= 5 {
        let tag = reader.at_relative_offset(4)?;
        if (len == 5 && tag == OrderType::Disconnect.to_byte()) || tag
            == OrderType::SyncHash.to_byte() {
            if len as usize > remaining {
                return Err(DecodeError::OutOfBounds);
            }
            let _ = reader.set_pos(body + len as usize);
            return Ok(Packet::Control { client_id: client_id });
        }
    }
    if len < 4 {
        return Err(DecodeError::Framing);
    }
    let frame = reader.read_i32()?;
    let stop = if len as usize > remaining {
        None
    } else {
        Some(body + len as usize)
    };
    let mut orders: Vec<Order> = Vec::new();
    read_orders(reader, &mut orders, client_id, frame, stop, wide, Ghost(body + len))?;
    Ok(Packet::Orders { client_id: client_id, frame: frame, orders: orders })
}

/// Reads the packet at the cursor: the terminator, a control packet, which is
/// skipped, or a frame with its orders. `wide_flags` says whether the flags of
/// an order with fields take two bytes or one. On failure the cursor stays where
/// it was.
pub fn next_packet(reader: &mut ReplayReader, wide_flags: bool) -> (result: Result<
    Packet,
    DecodeError,
>)
    ensures
        final(reader)@.bytes == old(reader)@.bytes,
        match packet_at(old(reader)@.bytes, old(reader)@.pos, wide_flags) {
            Ok((packet, end)) => result matches Ok(r) && r@ == packet && final(reader)@.pos
                == end,
            Err(e) => result matches Err(r) && r == e && final(reader)@.pos == old(reader)@.pos,
        },
{
    let start = reader.pos();
    let result = read_packet(reader, wide_flags);
    if result.is_err() {
        let _ = reader.set_pos(start);
    }
    result
}

/// The orders of all packets from `pos` up to the terminator, in the sequence in
/// which they were written, and where the terminator ends.
pub open spec fn stream_at(bytes: Seq<u8>, pos: int, wide: bool) -> Result<
    (Seq<OrderView>, int),
    DecodeError,
>
    decreases bytes.len() - pos,
    via stream_at_terminates
{
    match packet_at(bytes, pos, wide) {
        Err(e) => Err(e),
        Ok((PacketView::End, end)) => Ok((Seq::empty(), end)),
        Ok((PacketView::Control { client_id }, end)) => stream_at(bytes, end, wide),
        Ok((PacketView::Orders { client_id, frame, orders }, end)) => match stream_at(
            bytes,
            end,
            wide,
        ) {
            Err(e) => Err(e),
            Ok((rest, last)) => Ok((orders + rest, last)),
        },
    }
}

#[via_fn]
proof fn stream_at_terminates(bytes: Seq<u8>, pos: int, wide: bool) {
    if packet_at(bytes, pos, wide) is Ok {
        lemma_packet_boundary(bytes, pos, wide);
    }
}

/// Reads all packets from the cursor up to the terminator and returns their
/// orders, in the sequence in which they were written. `wide_flags` says whether
/// the flags of an order with fields take two bytes or one. On success the cursor
/// stands behind the terminator; on failure it stays where it was.
pub fn parse_orders(reader: &mut ReplayReader, wide_flags: bool) -> (result: Result<
    Vec<Order>,
    DecodeError,
>)
    ensures
        final(reader)@.bytes == old(reader)@.bytes,
        match stream_at(old(reader)@.bytes, old(reader)@.pos, wide_flags) {
            Ok((orders, end)) => result matches Ok(r) && orders_view(r@) == orders
                && final(reader)@.pos == end,
            Err(e) => result matches Err(r) && r == e && final(reader)@.pos == old(reader)@.pos,
        },
{
    let start = reader.pos();
    let ghost bytes = reader@.bytes;
    let mut out: Vec<Order> = Vec::new();
    assert(orders_view(out@) + stream_at(bytes, start as int, wide_flags)->Ok_0.0 == stream_at(
        bytes,
        start as int,
        wide_flags,
    )->Ok_0.0);
    loop
        invariant
            reader@.bytes == bytes,
            bytes == old(reader)@.bytes,
            start == old(reader)@.pos,
            start <= bytes.len(),
            match stream_at(bytes, reader@.pos, wide_flags) {
                Ok((rest, end)) => stream_at(bytes, start as int, wide_flags) is Ok && stream_at(
                    bytes,
                    start as int,
                    wide_flags,
                )->Ok_0 == (orders_view(out@) + rest, end),
                Err(e) => stream_at(bytes, start as int, wide_flags) == Err::<
                    (Seq<OrderView>, int),
                    DecodeError,
                >(e),
            },
        decreases bytes.len() - reader@.pos,
    {
        let ghost pos = reader@.pos;
        match read_packet(reader, wide_flags) {
            Err(e) => {
                let _ = reader.set_pos(start);
                return Err(e);
            },
            Ok(Packet::End) => {
                return Ok(out);
            },
            Ok(Packet::Control { client_id }) => {
                proof {
                    lemma_packet_boundary(bytes, pos, wide_flags);
                }
            },
            Ok(Packet::Orders { client_id, frame, orders }) => {
                let mut orders = orders;
                out.append(&mut orders);
                proof {
                    lemma_packet_boundary(bytes, pos, wide_flags);
                }
            },
        }
    }
}

} // verus!

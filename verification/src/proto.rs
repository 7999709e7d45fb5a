pub use crate::types::{OrderTypeT, SideT};
use vstd::arithmetic::div_mod::lemma_fundamental_div_mod;
use vstd::prelude::*;
use vstd::slice::{slice_subrange, slice_to_vec};

verus! {

// ---------------------------------------------------------------------
// Varint primitive.
//
// The wire envelope is a compact tag-length-value scheme: every field
// starts with a single-byte tag `field_number << 3 | wire_type`, integers
// are base-128 varints (low groups first, high bit set on every byte but
// the last), and strings, bytes and nested messages are length-delimited.
// ---------------------------------------------------------------------
/// Base-128 encoding of `v`, low group first.
pub open spec fn enc_varint(v: nat) -> Seq<u8>
    decreases v,
{
    if v < 128 {
        seq![v as u8]
    } else {
        seq![(v % 128 + 128) as u8] + enc_varint(v / 128)
    }
}

/// Decode a varint from the front of `s`: the value (unbounded; callers
/// bound it) and the remaining bytes. `fuel` caps the accepted encoding
/// length; the wire format uses 10.
pub open spec fn dec_varint(s: Seq<u8>, fuel: nat) -> Option<(nat, Seq<u8>)>
    decreases fuel,
{
    if fuel == 0 || s.len() == 0 {
        None
    } else {
        let b = s[0] as nat;
        if b < 128 {
            Some((b, s.drop_first()))
        } else {
            match dec_varint(s.drop_first(), (fuel - 1) as nat) {
                None => None,
                Some((v, r)) => Some(((b - 128 + 128 * v) as nat, r)),
            }
        }
    }
}

pub proof fn lemma_dec_varint_len(s: Seq<u8>, fuel: nat)
    ensures
        dec_varint(s, fuel) matches Some((v, r)) ==> r.len() < s.len(),
    decreases fuel,
{
    if fuel != 0 && s.len() != 0 && s[0] >= 128 {
        lemma_dec_varint_len(s.drop_first(), (fuel - 1) as nat);
    }
}

/// A decoded varint re-encodes from the front: decoding an encoding
/// followed by anything yields the value and that tail.
pub proof fn lemma_varint_round_trip(v: nat, tail: Seq<u8>, fuel: nat)
    requires
        enc_varint(v).len() <= fuel,
    ensures
        dec_varint(enc_varint(v) + tail, fuel) == Some((v, tail)),
    decreases v,
{
    let s = enc_varint(v) + tail;
    if v < 128 {
        assert(s[0] == v as u8);
        assert(s.drop_first() =~= tail);
    } else {
        assert(s[0] == (v % 128 + 128) as u8);
        assert(s[0] as nat == v % 128 + 128);
        assert(s.drop_first() =~= enc_varint(v / 128) + tail);
        lemma_varint_round_trip(v / 128, tail, (fuel - 1) as nat);
        lemma_fundamental_div_mod(v as int, 128);
    }
}

/// 128 to the `n`.
pub open spec fn pow128(n: nat) -> nat
    decreases n,
{
    if n == 0 {
        1nat
    } else {
        128 * pow128((n - 1) as nat)
    }
}

pub proof fn lemma_enc_varint_len(v: nat, n: nat)
    requires
        n >= 1,
        v < pow128(n),
    ensures
        enc_varint(v).len() <= n,
    decreases n,
{
    if v < 128 {
    } else {
        assert(pow128(n) == 128 * pow128((n - 1) as nat));
        lemma_fundamental_div_mod(v as int, 128);
        assert(v / 128 < pow128((n - 1) as nat));
        assert(n - 1 >= 1) by {
            if n == 1 {
                assert(pow128(0nat) == 1);
                assert(v < 128);
            }
        }
        lemma_enc_varint_len(v / 128, (n - 1) as nat);
    }
}

/// Every 64-bit value encodes in at most 10 bytes.
pub proof fn lemma_enc_varint_len64(v: nat)
    requires
        v < 0x1_0000_0000_0000_0000,
    ensures
        enc_varint(v).len() <= 10,
{
    reveal_with_fuel(pow128, 11);
    assert(pow128(10) == 0x40_0000_0000_0000_0000);
    lemma_enc_varint_len(v, 10);
}

// ---------------------------------------------------------------------
// Length-delimited payloads.
// ---------------------------------------------------------------------
/// A length-delimited payload: its length as a varint, then its bytes.
pub open spec fn enc_bytes(p: Seq<u8>) -> Seq<u8> {
    enc_varint(p.len()) + p
}

/// Decode a length-delimited payload from the front of `s`.
pub open spec fn dec_bytes(s: Seq<u8>) -> Option<(Seq<u8>, Seq<u8>)> {
    match dec_varint(s, 10) {
        None => None,
        Some((l, r)) => if l <= r.len() {
            Some((r.take(l as int), r.skip(l as int)))
        } else {
            None
        },
    }
}

pub proof fn lemma_dec_bytes_len(s: Seq<u8>)
    ensures
        dec_bytes(s) matches Some((p, r)) ==> r.len() < s.len(),
{
    lemma_dec_varint_len(s, 10);
}

pub proof fn lemma_bytes_round_trip(p: Seq<u8>, tail: Seq<u8>)
    requires
        p.len() < 0x1_0000_0000_0000_0000,
    ensures
        dec_bytes(enc_bytes(p) + tail) == Some((p, tail)),
{
    lemma_enc_varint_len64(p.len());
    assert(enc_bytes(p) + tail =~= enc_varint(p.len()) + (p + tail));
    lemma_varint_round_trip(p.len(), p + tail, 10);
    assert((p + tail).take(p.len() as int) =~= p);
    assert((p + tail).skip(p.len() as int) =~= tail);
}

// ---------------------------------------------------------------------
// Executable varint and payload readers and writers.
// ---------------------------------------------------------------------
/// Append the varint encoding of `v` to `out`.
pub fn write_varint(out: &mut Vec<u8>, v: u64)
    ensures
        final(out)@ == old(out)@ + enc_varint(v as nat),
    decreases v,
{
    if v < 128 {
        out.push(v as u8);
        proof {
            assert(out@ =~= old(out)@ + enc_varint(v as nat));
        }
    } else {
        out.push((v % 128 + 128) as u8);
        let ghost mid = out@;
        write_varint(out, v / 128);
        proof {
            assert(out@ =~= old(out)@ + enc_varint(v as nat));
        }
    }
}

/// Read a varint at index `i`; `None` when the bytes are malformed or the
/// value does not fit in 64 bits.
pub fn read_varint(data: &[u8], i: usize, fuel: u64) -> (r: Option<(u64, usize)>)
    requires
        i <= data@.len(),
    ensures
        match r {
            Some((v, j)) => i < j <= data@.len() && dec_varint(data@.skip(i as int), fuel as nat)
                == Some((v as nat, data@.skip(j as int))),
            None => match dec_varint(data@.skip(i as int), fuel as nat) {
                Some((v, rest)) => v >= 0x1_0000_0000_0000_0000,
                None => true,
            },
        },
    decreases fuel,
{
    if fuel == 0 || i >= data.len() {
        return None;
    }
    let b = data[i];
    proof {
        assert(data@.skip(i as int)[0] == data@[i as int]);
        assert(data@.skip(i as int).drop_first() =~= data@.skip(i as int + 1));
    }
    if b < 128 {
        return Some((b as u64, i + 1));
    }
    match read_varint(data, i + 1, fuel - 1) {
        None => None,
        Some((v, j)) => {
            let low = (b - 128) as u64;
            if v <= (u64::MAX - low) / 128 {
                Some((low + v * 128, j))
            } else {
                None
            }
        },
    }
}

/// Advance past a varint at index `i` without bounding its value.
pub fn skip_varint(data: &[u8], i: usize, fuel: u64) -> (r: Option<usize>)
    requires
        i <= data@.len(),
    ensures
        match r {
            Some(j) => i < j <= data@.len() && (match dec_varint(
                data@.skip(i as int),
                fuel as nat,
            ) {
                Some((v, rest)) => rest == data@.skip(j as int),
                None => false,
            }),
            None => dec_varint(data@.skip(i as int), fuel as nat) is None,
        },
    decreases fuel,
{
    if fuel == 0 || i >= data.len() {
        return None;
    }
    let b = data[i];
    proof {
        assert(data@.skip(i as int)[0] == data@[i as int]);
        assert(data@.skip(i as int).drop_first() =~= data@.skip(i as int + 1));
    }
    if b < 128 {
        return Some(i + 1);
    }
    skip_varint(data, i + 1, fuel - 1)
}

/// Read a length-delimited payload at index `i`: the payload slice and the
/// index just past it.
pub fn read_len_prefixed<'a>(data: &'a [u8], i: usize) -> (r: Option<(&'a [u8], usize)>)
    requires
        i <= data@.len(),
    ensures
        match r {
            Some((p, j)) => i < j <= data@.len() && dec_bytes(data@.skip(i as int)) == Some(
                (p@, data@.skip(j as int)),
            ),
            None => dec_bytes(data@.skip(i as int)) is None,
        },
{
    let n = data.len();
    match read_varint(data, i, 10) {
        None => {
            proof {
                if dec_varint(data@.skip(i as int), 10) is Some {
                    let (v, rest) = dec_varint(data@.skip(i as int), 10)->Some_0;
                    lemma_dec_varint_len(data@.skip(i as int), 10);
                    assert(rest.len() < n - i);
                    assert(v > rest.len());
                }
            }
            None
        },
        Some((l, j)) => {
            if l <= (data.len() - j) as u64 {
                let j2 = j + (l as usize);
                let p = slice_subrange(data, j, j2);
                proof {
                    assert(data@.skip(j as int).take(l as int) =~= data@.subrange(
                        j as int,
                        j2 as int,
                    ));
                    assert(data@.skip(j as int).skip(l as int) =~= data@.skip(j2 as int));
                }
                Some((p, j2))
            } else {
                None
            }
        },
    }
}

/// Append a length-delimited payload to `out`.
pub fn write_len_prefixed(out: &mut Vec<u8>, p: &Vec<u8>)
    ensures
        final(out)@ == old(out)@ + enc_bytes(p@),
{
    write_varint(out, p.len() as u64);
    let ghost mid = out@;
    out.extend_from_slice(p.as_slice());
    proof {
        assert(out@ =~= old(out)@ + enc_bytes(p@));
    }
}

/// Skip one unrecognized field whose tag has wire type `tag % 8`:
/// a varint, 8 fixed bytes, a length-delimited payload, or 4 fixed bytes.
pub open spec fn skip_unknown(tag: nat, s: Seq<u8>) -> Option<Seq<u8>> {
    let wire = tag % 8;
    if wire == 0 {
        match dec_varint(s, 10) {
            None => None,
            Some((v, r)) => Some(r),
        }
    } else if wire == 1 {
        if s.len() >= 8 {
            Some(s.skip(8))
        } else {
            None
        }
    } else if wire == 2 {
        match dec_bytes(s) {
            None => None,
            Some((p, r)) => Some(r),
        }
    } else if wire == 5 {
        if s.len() >= 4 {
            Some(s.skip(4))
        } else {
            None
        }
    } else {
        None
    }
}

pub proof fn lemma_skip_unknown_len(tag: nat, s: Seq<u8>)
    ensures
        skip_unknown(tag, s) matches Some(r) ==> r.len() < s.len(),
{
    lemma_dec_varint_len(s, 10);
    lemma_dec_bytes_len(s);
}

/// Executable form of `skip_unknown`.
pub fn skip_unknown_field(data: &[u8], i: usize, tag: u64) -> (r: Option<usize>)
    requires
        i <= data@.len(),
    ensures
        match r {
            Some(j) => i < j <= data@.len() && skip_unknown(tag as nat, data@.skip(i as int))
                == Some(data@.skip(j as int)),
            None => skip_unknown(tag as nat, data@.skip(i as int)) is None,
        },
{
    let wire = tag % 8;
    if wire == 0 {
        skip_varint(data, i, 10)
    } else if wire == 1 {
        if data.len() - i >= 8 {
            proof {
                assert(data@.skip(i as int).skip(8) =~= data@.skip(i as int + 8));
            }
            Some(i + 8)
        } else {
            None
        }
    } else if wire == 2 {
        match read_len_prefixed(data, i) {
            Some((_p, j)) => Some(j),
            None => None,
        }
    } else if wire == 5 {
        if data.len() - i >= 4 {
            proof {
                assert(data@.skip(i as int).skip(4) =~= data@.skip(i as int + 4));
            }
            Some(i + 4)
        } else {
            None
        }
    } else {
        None
    }
}

// ---------------------------------------------------------------------
// Enumeration codes.
// ---------------------------------------------------------------------
/// Wire number of a side.
pub open spec fn side_code(s: SideT) -> u64 {
    match s {
        SideT::INVALID => 0,
        SideT::BUY => 1,
        SideT::SELL => 2,
    }
}

/// Side for a wire number; unrecognized numbers fall back to `INVALID`.
pub open spec fn side_of_code(v: nat) -> SideT {
    if v == 1 {
        SideT::BUY
    } else if v == 2 {
        SideT::SELL
    } else {
        SideT::INVALID
    }
}

/// Wire number of an order type.
pub open spec fn order_type_code(t: OrderTypeT) -> u64 {
    match t {
        OrderTypeT::INVALID => 0,
        OrderTypeT::MARKET => 1,
        OrderTypeT::LIMIT => 2,
        OrderTypeT::LIMIT_MAKER => 3,
    }
}

/// Order type for a wire number; unrecognized numbers fall back to
/// `INVALID`.
pub open spec fn order_type_of_code(v: nat) -> OrderTypeT {
    if v == 1 {
        OrderTypeT::MARKET
    } else if v == 2 {
        OrderTypeT::LIMIT
    } else if v == 3 {
        OrderTypeT::LIMIT_MAKER
    } else {
        OrderTypeT::INVALID
    }
}

pub fn side_code_exec(s: SideT) -> (r: u64)
    ensures
        r == side_code(s),
{
    match s {
        SideT::INVALID => 0,
        SideT::BUY => 1,
        SideT::SELL => 2,
    }
}

pub fn side_of_code_exec(v: u64) -> (r: SideT)
    ensures
        r == side_of_code(v as nat),
{
    if v == 1 {
        SideT::BUY
    } else if v == 2 {
        SideT::SELL
    } else {
        SideT::INVALID
    }
}

pub fn order_type_code_exec(t: OrderTypeT) -> (r: u64)
    ensures
        r == order_type_code(t),
{
    match t {
        OrderTypeT::INVALID => 0,
        OrderTypeT::MARKET => 1,
        OrderTypeT::LIMIT => 2,
        OrderTypeT::LIMIT_MAKER => 3,
    }
}

pub fn order_type_of_code_exec(v: u64) -> (r: OrderTypeT)
    ensures
        r == order_type_of_code(v as nat),
{
    if v == 1 {
        OrderTypeT::MARKET
    } else if v == 2 {
        OrderTypeT::LIMIT
    } else if v == 3 {
        OrderTypeT::LIMIT_MAKER
    } else {
        OrderTypeT::INVALID
    }
}

// ---------------------------------------------------------------------
// The Order wire message.
// Field tags: customer_tag=1 (tag byte 10), price=2 (16), qty=3 (24),
// side=4 (32), order_type=5 (40).
// ---------------------------------------------------------------------
/// Mathematical model of an `Order` wire message.
#[verifier::ext_equal]
pub struct OrderMsgV {
    pub customer_tag: Option<Seq<u8>>,
    pub price: Option<u64>,
    pub qty: Option<u64>,
    pub side: Option<SideT>,
    pub order_type: Option<OrderTypeT>,
}

/// An `Order` wire message; every field optional, strings carried as raw
/// bytes.
#[derive(Debug, Clone, PartialEq)]
pub struct Order {
    pub customer_tag: Option<Vec<u8>>,
    pub price: Option<u64>,
    pub qty: Option<u64>,
    pub side: Option<SideT>,
    pub order_type: Option<OrderTypeT>,
}

impl View for Order {
    type V = OrderMsgV;

    open spec fn view(&self) -> OrderMsgV {
        OrderMsgV {
            customer_tag: match self.customer_tag {
                Some(v) => Some(v@),
                None => None,
            },
            price: self.price,
            qty: self.qty,
            side: self.side,
            order_type: self.order_type,
        }
    }
}

/// The message with no field set.
pub open spec fn empty_order_msg() -> OrderMsgV {
    OrderMsgV { customer_tag: None, price: None, qty: None, side: None, order_type: None }
}

impl Default for Order {
    fn default() -> (r: Order)
        ensures
            r@ == empty_order_msg(),
    {
        Order { customer_tag: None, price: None, qty: None, side: None, order_type: None }
    }
}

/// Encoding of an `Order` message: each set field in tag order.
pub open spec fn enc_order_msg(m: OrderMsgV) -> Seq<u8> {
    (match m.customer_tag {
        Some(p) => seq![10u8] + enc_bytes(p),
        None => Seq::<u8>::empty(),
    }) + (match m.price {
        Some(v) => seq![16u8] + enc_varint(v as nat),
        None => Seq::<u8>::empty(),
    }) + (match m.qty {
        Some(v) => seq![24u8] + enc_varint(v as nat),
        None => Seq::<u8>::empty(),
    }) + (match m.side {
        Some(x) => seq![32u8] + enc_varint(side_code(x) as nat),
        None => Seq::<u8>::empty(),
    }) + (match m.order_type {
        Some(x) => seq![40u8] + enc_varint(order_type_code(x) as nat),
        None => Seq::<u8>::empty(),
    })
}

/// Decoding of an `Order` message body: fields in any order, later
/// occurrences winning, unknown fields skipped by wire type, tags or
/// values beyond 64 bits rejected as malformed.
#[verifier::opaque]
pub open spec fn dec_order_fields(s: Seq<u8>, m: OrderMsgV) -> Option<OrderMsgV>
    decreases s.len(),
    via dec_order_fields_dec
{
    if s.len() == 0 {
        Some(m)
    } else {
        match dec_varint(s, 10) {
            None => None,
            Some((tag, r)) => {
                if tag >= 0x1_0000_0000_0000_0000 {
                    None
                } else if tag == 10 {
                    match dec_bytes(r) {
                        None => None,
                        Some((p, r2)) => dec_order_fields(
                            r2,
                            OrderMsgV {
                                customer_tag: Some(p),
                                price: m.price,
                                qty: m.qty,
                                side: m.side,
                                order_type: m.order_type,
                            },
                        ),
                    }
                } else if tag == 16 {
                    match dec_varint(r, 10) {
                        None => None,
                        Some((v, r2)) => if v < 0x1_0000_0000_0000_0000 {
                            dec_order_fields(
                                r2,
                                OrderMsgV {
                                    customer_tag: m.customer_tag,
                                    price: Some(v as u64),
                                    qty: m.qty,
                                    side: m.side,
                                    order_type: m.order_type,
                                },
                            )
                        } else {
                            None
                        },
                    }
                } else if tag == 24 {
                    match dec_varint(r, 10) {
                        None => None,
                        Some((v, r2)) => if v < 0x1_0000_0000_0000_0000 {
                            dec_order_fields(
                                r2,
                                OrderMsgV {
                                    customer_tag: m.customer_tag,
                                    price: m.price,
                                    qty: Some(v as u64),
                                    side: m.side,
                                    order_type: m.order_type,
                                },
                            )
                        } else {
                            None
                        },
                    }
                } else if tag == 32 {
                    match dec_varint(r, 10) {
                        None => None,
                        Some((v, r2)) => if v < 0x1_0000_0000_0000_0000 {
                            dec_order_fields(
                                r2,
                                OrderMsgV {
                                    customer_tag: m.customer_tag,
                                    price: m.price,
                                    qty: m.qty,
                                    side: Some(side_of_code(v)),
                                    order_type: m.order_type,
                                },
                            )
                        } else {
                            None
                        },
                    }
                } else if tag == 40 {
                    match dec_varint(r, 10) {
                        None => None,
                        Some((v, r2)) => if v < 0x1_0000_0000_0000_0000 {
                            dec_order_fields(
                                r2,
                                OrderMsgV {
                                    customer_tag: m.customer_tag,
                                    price: m.price,
                                    qty: m.qty,
                                    side: m.side,
                                    order_type: Some(order_type_of_code(v)),
                                },
                            )
                        } else {
                            None
                        },
                    }
                } else {
                    match skip_unknown(tag, r) {
                        None => None,
                        Some(r2) => dec_order_fields(r2, m),
                    }
                }
            },
        }
    }
}

#[via_fn]
proof fn dec_order_fields_dec(s: Seq<u8>, m: OrderMsgV) {
    lemma_dec_varint_len(s, 10);
    if s.len() != 0 {
        match dec_varint(s, 10) {
            None => {},
            Some((tag, r)) => {
                lemma_dec_varint_len(r, 10);
                lemma_dec_bytes_len(r);
                lemma_skip_unknown_len(tag, r);
            },
        }
    }
}

/// Parse a complete `Order` message body.
pub fn read_order(data: &[u8]) -> (r: Option<Order>)
    ensures
        match r {
            Some(m) => dec_order_fields(data@, empty_order_msg()) == Some(m@),
            None => dec_order_fields(data@, empty_order_msg()) is None,
        },
{
    let mut msg = Order::default();
    let mut i: usize = 0;
    proof {
        assert(data@.skip(0) =~= data@);
    }
    loop
        invariant
            i <= data@.len(),
            dec_order_fields(data@, empty_order_msg()) == dec_order_fields(
                data@.skip(i as int),
                msg@,
            ),
        decreases data@.len() - i,
    {
        if i >= data.len() {
            proof {
                reveal(dec_order_fields);
                assert(data@.skip(i as int) =~= Seq::<u8>::empty());
            }
            return Some(msg);
        }
        let ghost s_cur = data@.skip(i as int);
        let ghost m_cur = msg@;
        match read_varint(data, i, 10) {
            None => {
                proof {
                    reveal(dec_order_fields);
                    assert(dec_order_fields(s_cur, m_cur) is None);
                }
                return None;
            },
            Some((tag, j)) => {
                if tag == 10 {
                    match read_len_prefixed(data, j) {
                        None => {
                            proof {
                                reveal(dec_order_fields);
                                assert(dec_order_fields(s_cur, m_cur) is None);
                            }
                            return None;
                        },
                        Some((p, j2)) => {
                            msg.customer_tag = Some(slice_to_vec(p));
                            proof {
                                reveal(dec_order_fields);
                                assert(dec_order_fields(s_cur, m_cur) == dec_order_fields(
                                    data@.skip(j2 as int),
                                    msg@,
                                ));
                            }
                            i = j2;
                        },
                    }
                } else if tag == 16 || tag == 24 || tag == 32 || tag == 40 {
                    match read_varint(data, j, 10) {
                        None => {
                            proof {
                                reveal(dec_order_fields);
                                assert(dec_order_fields(s_cur, m_cur) is None);
                            }
                            return None;
                        },
                        Some((v, j2)) => {
                            if tag == 16 {
                                msg.price = Some(v);
                            } else if tag == 24 {
                                msg.qty = Some(v);
                            } else if tag == 32 {
                                msg.side = Some(side_of_code_exec(v));
                            } else {
                                msg.order_type = Some(order_type_of_code_exec(v));
                            }
                            proof {
                                reveal(dec_order_fields);
                                assert(dec_order_fields(s_cur, m_cur) == dec_order_fields(
                                    data@.skip(j2 as int),
                                    msg@,
                                ));
                            }
                            i = j2;
                        },
                    }
                } else {
                    match skip_unknown_field(data, j, tag) {
                        None => {
                            proof {
                                reveal(dec_order_fields);
                                assert(dec_order_fields(s_cur, m_cur) is None);
                            }
                            return None;
                        },
                        Some(j2) => {
                            proof {
                                reveal(dec_order_fields);
                                assert(dec_order_fields(s_cur, m_cur) == dec_order_fields(
                                    data@.skip(j2 as int),
                                    msg@,
                                ));
                            }
                            i = j2;
                        },
                    }
                }
            },
        }
    }
}

/// Serialize an `Order` message body.
#[verifier::rlimit(50)]
pub fn write_order(m: &Order) -> (out: Vec<u8>)
    ensures
        out@ == enc_order_msg(m@),
{
    let ghost c1: Seq<u8> = match m@.customer_tag {
        Some(p) => seq![10u8] + enc_bytes(p),
        None => Seq::<u8>::empty(),
    };
    let ghost c2: Seq<u8> = match m@.price {
        Some(v) => seq![16u8] + enc_varint(v as nat),
        None => Seq::<u8>::empty(),
    };
    let ghost c3: Seq<u8> = match m@.qty {
        Some(v) => seq![24u8] + enc_varint(v as nat),
        None => Seq::<u8>::empty(),
    };
    let ghost c4: Seq<u8> = match m@.side {
        Some(x) => seq![32u8] + enc_varint(side_code(x) as nat),
        None => Seq::<u8>::empty(),
    };
    let ghost c5: Seq<u8> = match m@.order_type {
        Some(x) => seq![40u8] + enc_varint(order_type_code(x) as nat),
        None => Seq::<u8>::empty(),
    };
    let mut out: Vec<u8> = Vec::new();
    match &m.customer_tag {
        Some(ct) => {
            out.push(10u8);
            write_len_prefixed(&mut out, ct);
        },
        None => {},
    }
    proof {
        assert(out@ =~= c1);
    }
    let ghost o1 = out@;
    match m.price {
        Some(v) => {
            out.push(16u8);
            write_varint(&mut out, v);
        },
        None => {},
    }
    proof {
        assert(out@ =~= o1 + c2);
    }
    let ghost o2 = out@;
    match m.qty {
        Some(v) => {
            out.push(24u8);
            write_varint(&mut out, v);
        },
        None => {},
    }
    proof {
        assert(out@ =~= o2 + c3);
    }
    let ghost o3 = out@;
    match m.side {
        Some(x) => {
            out.push(32u8);
            write_varint(&mut out, side_code_exec(x));
        },
        None => {},
    }
    proof {
        assert(out@ =~= o3 + c4);
    }
    let ghost o4 = out@;
    match m.order_type {
        Some(x) => {
            out.push(40u8);
            write_varint(&mut out, order_type_code_exec(x));
        },
        None => {},
    }
    proof {
        assert(out@ =~= o4 + c5);
        assert(out@ =~= c1 + c2 + c3 + c4 + c5);
        assert(enc_order_msg(m@) == c1 + c2 + c3 + c4 + c5);
    }
    out
}

/// A message all of whose payload fields fit the wire's 64-bit lengths.
pub open spec fn order_msg_wf(m: OrderMsgV) -> bool {
    m.customer_tag matches Some(p) ==> p.len() < 0x1_0000_0000_0000_0000
}

/// One decoding step over an encoded length-delimited field.
proof fn lemma_step_len_field(tg: u8, p: Seq<u8>, rest: Seq<u8>)
    requires
        tg < 128,
        p.len() < 0x1_0000_0000_0000_0000,
    ensures
        dec_varint(seq![tg] + (enc_bytes(p) + rest), 10) == Some(
            (tg as nat, enc_bytes(p) + rest),
        ),
        dec_bytes(enc_bytes(p) + rest) == Some((p, rest)),
{
    let s = seq![tg] + (enc_bytes(p) + rest);
    assert(s[0] == tg);
    assert(s.drop_first() =~= enc_bytes(p) + rest);
    lemma_bytes_round_trip(p, rest);
}

/// One decoding step over an encoded varint field.
proof fn lemma_step_varint_field(tg: u8, v: u64, rest: Seq<u8>)
    requires
        tg < 128,
    ensures
        dec_varint(seq![tg] + (enc_varint(v as nat) + rest), 10) == Some(
            (tg as nat, enc_varint(v as nat) + rest),
        ),
        dec_varint(enc_varint(v as nat) + rest, 10) == Some((v as nat, rest)),
{
    let s = seq![tg] + (enc_varint(v as nat) + rest);
    assert(s[0] == tg);
    assert(s.drop_first() =~= enc_varint(v as nat) + rest);
    lemma_enc_varint_len64(v as nat);
    lemma_varint_round_trip(v as nat, rest, 10);
}

/// One decoder transition per field kind, each unfolding the decoder once.
#[verifier::rlimit(50)]
proof fn lemma_order_step_ct(p: Seq<u8>, rest: Seq<u8>, m: OrderMsgV)
    requires
        p.len() < 0x1_0000_0000_0000_0000,
    ensures
        dec_order_fields(seq![10u8] + (enc_bytes(p) + rest), m) == dec_order_fields(
            rest,
            OrderMsgV {
                customer_tag: Some(p),
                price: m.price,
                qty: m.qty,
                side: m.side,
                order_type: m.order_type,
            },
        ),
{
    reveal(dec_order_fields);
    lemma_step_len_field(10u8, p, rest);
}

#[verifier::rlimit(50)]
proof fn lemma_order_step_varint(tg: u8, v: u64, rest: Seq<u8>, m: OrderMsgV)
    requires
        tg == 16 || tg == 24 || tg == 32 || tg == 40,
    ensures
        dec_order_fields(seq![tg] + (enc_varint(v as nat) + rest), m) == dec_order_fields(
            rest,
            if tg == 16 {
                OrderMsgV {
                    customer_tag: m.customer_tag,
                    price: Some(v),
                    qty: m.qty,
                    side: m.side,
                    order_type: m.order_type,
                }
            } else if tg == 24 {
                OrderMsgV {
                    customer_tag: m.customer_tag,
                    price: m.price,
                    qty: Some(v),
                    side: m.side,
                    order_type: m.order_type,
                }
            } else if tg == 32 {
                OrderMsgV {
                    customer_tag: m.customer_tag,
                    price: m.price,
                    qty: m.qty,
                    side: Some(side_of_code(v as nat)),
                    order_type: m.order_type,
                }
            } else {
                OrderMsgV {
                    customer_tag: m.customer_tag,
                    price: m.price,
                    qty: m.qty,
                    side: m.side,
                    order_type: Some(order_type_of_code(v as nat)),
                }
            },
        ),
{
    reveal(dec_order_fields);
    lemma_step_varint_field(tg, v, rest);
}

#[verifier::rlimit(50)]
proof fn lemma_order_done(m: OrderMsgV)
    ensures
        dec_order_fields(Seq::<u8>::empty(), m) == Some(m),
{
    reveal(dec_order_fields);
}

/// Round trip for the `Order` message: decoding an encoding yields the
/// message back, structurally equal.
#[verifier::rlimit(100)]
pub proof fn lemma_order_round_trip(m: OrderMsgV)
    requires
        order_msg_wf(m),
    ensures
        dec_order_fields(enc_order_msg(m), empty_order_msg()) == Some(m),
{
    let c1: Seq<u8> = match m.customer_tag {
        Some(p) => seq![10u8] + enc_bytes(p),
        None => Seq::<u8>::empty(),
    };
    let c2: Seq<u8> = match m.price {
        Some(v) => seq![16u8] + enc_varint(v as nat),
        None => Seq::<u8>::empty(),
    };
    let c3: Seq<u8> = match m.qty {
        Some(v) => seq![24u8] + enc_varint(v as nat),
        None => Seq::<u8>::empty(),
    };
    let c4: Seq<u8> = match m.side {
        Some(x) => seq![32u8] + enc_varint(side_code(x) as nat),
        None => Seq::<u8>::empty(),
    };
    let c5: Seq<u8> = match m.order_type {
        Some(x) => seq![40u8] + enc_varint(order_type_code(x) as nat),
        None => Seq::<u8>::empty(),
    };
    let m0 = empty_order_msg();
    let m1 = OrderMsgV { customer_tag: m.customer_tag, ..m0 };
    let m2 = OrderMsgV { price: m.price, ..m1 };
    let m3 = OrderMsgV { qty: m.qty, ..m2 };
    let m4 = OrderMsgV { side: m.side, ..m3 };
    let m5 = OrderMsgV { order_type: m.order_type, ..m4 };
    assert(enc_order_msg(m) =~= c1 + (c2 + (c3 + (c4 + c5))));
    // customer_tag
    match m.customer_tag {
        Some(p) => {
            lemma_order_step_ct(p, c2 + (c3 + (c4 + c5)), m0);
            assert(c1 + (c2 + (c3 + (c4 + c5))) =~= seq![10u8] + (enc_bytes(p) + (c2 + (c3 + (c4
                + c5)))));
        },
        None => {
            assert(c1 + (c2 + (c3 + (c4 + c5))) =~= c2 + (c3 + (c4 + c5)));
            assert(m1 =~= m0);
        },
    }
    assert(dec_order_fields(enc_order_msg(m), m0) == dec_order_fields(c2 + (c3 + (c4 + c5)), m1));
    // price
    match m.price {
        Some(v) => {
            lemma_order_step_varint(16u8, v, c3 + (c4 + c5), m1);
            assert(c2 + (c3 + (c4 + c5)) =~= seq![16u8] + (enc_varint(v as nat) + (c3 + (c4
                + c5))));
        },
        None => {
            assert(c2 + (c3 + (c4 + c5)) =~= c3 + (c4 + c5));
            assert(m2 =~= m1);
        },
    }
    assert(dec_order_fields(c2 + (c3 + (c4 + c5)), m1) == dec_order_fields(c3 + (c4 + c5), m2));
    // qty
    match m.qty {
        Some(v) => {
            lemma_order_step_varint(24u8, v, c4 + c5, m2);
            assert(c3 + (c4 + c5) =~= seq![24u8] + (enc_varint(v as nat) + (c4 + c5)));
        },
        None => {
            assert(c3 + (c4 + c5) =~= c4 + c5);
            assert(m3 =~= m2);
        },
    }
    assert(dec_order_fields(c3 + (c4 + c5), m2) == dec_order_fields(c4 + c5, m3));
    // side
    match m.side {
        Some(x) => {
            lemma_order_step_varint(32u8, side_code(x), c5, m3);
            assert(c4 + c5 =~= seq![32u8] + (enc_varint(side_code(x) as nat) + c5));
            assert(side_of_code(side_code(x) as nat) == x);
        },
        None => {
            assert(c4 + c5 =~= c5);
            assert(m4 =~= m3);
        },
    }
    assert(dec_order_fields(c4 + c5, m3) == dec_order_fields(c5, m4));
    // order_type
    match m.order_type {
        Some(x) => {
            lemma_order_step_varint(40u8, order_type_code(x), Seq::<u8>::empty(), m4);
            assert(c5 =~= seq![40u8] + (enc_varint(order_type_code(x) as nat)
                + Seq::<u8>::empty()));
            assert(order_type_of_code(order_type_code(x) as nat) == x);
        },
        None => {
            assert(c5 =~= Seq::<u8>::empty());
            assert(m5 =~= m4);
        },
    }
    assert(dec_order_fields(c5, m4) == dec_order_fields(Seq::<u8>::empty(), m5));
    lemma_order_done(m5);
    assert(m5 =~= m);
}


// ---------------------------------------------------------------------
// The AddOrder wire message.
// Field tags: currency_pair=1 (tag byte 10), order=2 (18, nested Order).
// ---------------------------------------------------------------------
/// Mathematical model of an `AddOrder` wire message.
#[verifier::ext_equal]
pub struct AddOrderMsgV {
    pub currency_pair: Option<Seq<u8>>,
    pub order: Option<OrderMsgV>,
}

/// An `AddOrder` wire message.
#[derive(Debug, Clone, PartialEq)]
pub struct AddOrder {
    pub currency_pair: Option<Vec<u8>>,
    pub order: Option<Order>,
}

impl View for AddOrder {
    type V = AddOrderMsgV;

    open spec fn view(&self) -> AddOrderMsgV {
        AddOrderMsgV {
            currency_pair: match self.currency_pair {
                Some(v) => Some(v@),
                None => None,
            },
            order: match self.order {
                Some(o) => Some(o@),
                None => None,
            },
        }
    }
}

/// The message with no field set.
pub open spec fn empty_add_order_msg() -> AddOrderMsgV {
    AddOrderMsgV { currency_pair: None, order: None }
}

impl Default for AddOrder {
    fn default() -> (r: AddOrder)
        ensures
            r@ == empty_add_order_msg(),
    {
        AddOrder { currency_pair: None, order: None }
    }
}

/// Encoding of an `AddOrder` message: each set field in tag order.
pub open spec fn enc_add_order_msg(m: AddOrderMsgV) -> Seq<u8> {
    (match m.currency_pair {
        Some(p) => seq![10u8] + enc_bytes(p),
        None => Seq::<u8>::empty(),
    }) + (match m.order {
        Some(o) => seq![18u8] + enc_bytes(enc_order_msg(o)),
        None => Seq::<u8>::empty(),
    })
}

/// Decoding of an `AddOrder` message body.
#[verifier::opaque]
pub open spec fn dec_add_order_fields(s: Seq<u8>, m: AddOrderMsgV) -> Option<AddOrderMsgV>
    decreases s.len(),
    via dec_add_order_fields_dec
{
    if s.len() == 0 {
        Some(m)
    } else {
        match dec_varint(s, 10) {
            None => None,
            Some((tag, r)) => {
                if tag >= 0x1_0000_0000_0000_0000 {
                    None
                } else if tag == 10 {
                    match dec_bytes(r) {
                        None => None,
                        Some((p, r2)) => dec_add_order_fields(
                            r2,
                            AddOrderMsgV { currency_pair: Some(p), order: m.order },
                        ),
                    }
                } else if tag == 18 {
                    match dec_bytes(r) {
                        None => None,
                        Some((p, r2)) => match dec_order_fields(p, empty_order_msg()) {
                            None => None,
                            Some(om) => dec_add_order_fields(
                                r2,
                                AddOrderMsgV {
                                    currency_pair: m.currency_pair,
                                    order: Some(om),
                                },
                            ),
                        },
                    }
                } else {
                    match skip_unknown(tag, r) {
                        None => None,
                        Some(r2) => dec_add_order_fields(r2, m),
                    }
                }
            },
        }
    }
}

#[via_fn]
proof fn dec_add_order_fields_dec(s: Seq<u8>, m: AddOrderMsgV) {
    lemma_dec_varint_len(s, 10);
    if s.len() != 0 {
        match dec_varint(s, 10) {
            None => {},
            Some((tag, r)) => {
                lemma_dec_bytes_len(r);
                lemma_skip_unknown_len(tag, r);
            },
        }
    }
}

/// Parse a complete `AddOrder` message body.
pub fn read_add_order(data: &[u8]) -> (r: Option<AddOrder>)
    ensures
        match r {
            Some(m) => dec_add_order_fields(data@, empty_add_order_msg()) == Some(m@),
            None => dec_add_order_fields(data@, empty_add_order_msg()) is None,
        },
{
    let mut msg = AddOrder::default();
    let mut i: usize = 0;
    proof {
        assert(data@.skip(0) =~= data@);
    }
    loop
        invariant
            i <= data@.len(),
            dec_add_order_fields(data@, empty_add_order_msg()) == dec_add_order_fields(
                data@.skip(i as int),
                msg@,
            ),
        decreases data@.len() - i,
    {
        if i >= data.len() {
            proof {
                reveal(dec_add_order_fields);
                assert(data@.skip(i as int) =~= Seq::<u8>::empty());
            }
            return Some(msg);
        }
        let ghost s_cur = data@.skip(i as int);
        let ghost m_cur = msg@;
        match read_varint(data, i, 10) {
            None => {
                proof {
                    reveal(dec_add_order_fields);
                    assert(dec_add_order_fields(s_cur, m_cur) is None);
                }
                return None;
            },
            Some((tag, j)) => {
                if tag == 10 {
                    match read_len_prefixed(data, j) {
                        None => {
                            proof {
                                reveal(dec_add_order_fields);
                                assert(dec_add_order_fields(s_cur, m_cur) is None);
                            }
                            return None;
                        },
                        Some((p, j2)) => {
                            msg.currency_pair = Some(slice_to_vec(p));
                            proof {
                                reveal(dec_add_order_fields);
                                assert(dec_add_order_fields(s_cur, m_cur)
                                    == dec_add_order_fields(data@.skip(j2 as int), msg@));
                            }
                            i = j2;
                        },
                    }
                } else if tag == 18 {
                    match read_len_prefixed(data, j) {
                        None => {
                            proof {
                                reveal(dec_add_order_fields);
                                assert(dec_add_order_fields(s_cur, m_cur) is None);
                            }
                            return None;
                        },
                        Some((p, j2)) => {
                            match read_order(p) {
                                None => {
                                    proof {
                                        reveal(dec_add_order_fields);
                                        assert(dec_add_order_fields(s_cur, m_cur) is None);
                                    }
                                    return None;
                                },
                                Some(om) => {
                                    msg.order = Some(om);
                                    proof {
                                        reveal(dec_add_order_fields);
                                        assert(dec_add_order_fields(s_cur, m_cur)
                                            == dec_add_order_fields(
                                            data@.skip(j2 as int),
                                            msg@,
                                        ));
                                    }
                                    i = j2;
                                },
                            }
                        },
                    }
                } else {
                    match skip_unknown_field(data, j, tag) {
                        None => {
                            proof {
                                reveal(dec_add_order_fields);
                                assert(dec_add_order_fields(s_cur, m_cur) is None);
                            }
                            return None;
                        },
                        Some(j2) => {
                            proof {
                                reveal(dec_add_order_fields);
                                assert(dec_add_order_fields(s_cur, m_cur)
                                    == dec_add_order_fields(data@.skip(j2 as int), msg@));
                            }
                            i = j2;
                        },
                    }
                }
            },
        }
    }
}

/// Serialize an `AddOrder` message body.
#[verifier::rlimit(50)]
pub fn write_add_order(m: &AddOrder) -> (out: Vec<u8>)
    ensures
        out@ == enc_add_order_msg(m@),
{
    let ghost c1: Seq<u8> = match m@.currency_pair {
        Some(p) => seq![10u8] + enc_bytes(p),
        None => Seq::<u8>::empty(),
    };
    let ghost c2: Seq<u8> = match m@.order {
        Some(o) => seq![18u8] + enc_bytes(enc_order_msg(o)),
        None => Seq::<u8>::empty(),
    };
    let mut out: Vec<u8> = Vec::new();
    match &m.currency_pair {
        Some(p) => {
            out.push(10u8);
            write_len_prefixed(&mut out, p);
        },
        None => {},
    }
    proof {
        assert(out@ =~= c1);
    }
    let ghost o1 = out@;
    match &m.order {
        Some(o) => {
            out.push(18u8);
            let body = write_order(o);
            write_len_prefixed(&mut out, &body);
        },
        None => {},
    }
    proof {
        assert(out@ =~= o1 + c2);
        assert(out@ =~= c1 + c2);
        assert(enc_add_order_msg(m@) == c1 + c2);
    }
    out
}

/// A well-formed `AddOrder` message: payloads fit the wire's lengths.
pub open spec fn add_order_msg_wf(m: AddOrderMsgV) -> bool {
    &&& (m.currency_pair matches Some(p) ==> p.len() < 0x1_0000_0000_0000_0000)
    &&& (m.order matches Some(o) ==> order_msg_wf(o) && enc_order_msg(o).len()
        < 0x1_0000_0000_0000_0000)
}

#[verifier::rlimit(50)]
proof fn lemma_add_order_step_cp(p: Seq<u8>, rest: Seq<u8>, m: AddOrderMsgV)
    requires
        p.len() < 0x1_0000_0000_0000_0000,
    ensures
        dec_add_order_fields(seq![10u8] + (enc_bytes(p) + rest), m) == dec_add_order_fields(
            rest,
            AddOrderMsgV { currency_pair: Some(p), order: m.order },
        ),
{
    reveal(dec_add_order_fields);
    lemma_step_len_field(10u8, p, rest);
}

#[verifier::rlimit(50)]
proof fn lemma_add_order_step_order(o: OrderMsgV, rest: Seq<u8>, m: AddOrderMsgV)
    requires
        order_msg_wf(o),
        enc_order_msg(o).len() < 0x1_0000_0000_0000_0000,
    ensures
        dec_add_order_fields(seq![18u8] + (enc_bytes(enc_order_msg(o)) + rest), m)
            == dec_add_order_fields(
            rest,
            AddOrderMsgV { currency_pair: m.currency_pair, order: Some(o) },
        ),
{
    reveal(dec_add_order_fields);
    lemma_step_len_field(18u8, enc_order_msg(o), rest);
    lemma_order_round_trip(o);
}

#[verifier::rlimit(50)]
proof fn lemma_add_order_done(m: AddOrderMsgV)
    ensures
        dec_add_order_fields(Seq::<u8>::empty(), m) == Some(m),
{
    reveal(dec_add_order_fields);
}

/// Round trip for the `AddOrder` message.
pub proof fn lemma_add_order_round_trip(m: AddOrderMsgV)
    requires
        add_order_msg_wf(m),
    ensures
        dec_add_order_fields(enc_add_order_msg(m), empty_add_order_msg()) == Some(m),
{
    let c1: Seq<u8> = match m.currency_pair {
        Some(p) => seq![10u8] + enc_bytes(p),
        None => Seq::<u8>::empty(),
    };
    let c2: Seq<u8> = match m.order {
        Some(o) => seq![18u8] + enc_bytes(enc_order_msg(o)),
        None => Seq::<u8>::empty(),
    };
    let m0 = empty_add_order_msg();
    let m1 = AddOrderMsgV { currency_pair: m.currency_pair, ..m0 };
    let m2 = AddOrderMsgV { order: m.order, ..m1 };
    assert(enc_add_order_msg(m) =~= c1 + c2);
    match m.currency_pair {
        Some(p) => {
            lemma_add_order_step_cp(p, c2, m0);
            assert(c1 + c2 =~= seq![10u8] + (enc_bytes(p) + c2));
        },
        None => {
            assert(c1 + c2 =~= c2);
            assert(m1 =~= m0);
        },
    }
    assert(dec_add_order_fields(enc_add_order_msg(m), m0) == dec_add_order_fields(c2, m1));
    match m.order {
        Some(o) => {
            lemma_add_order_step_order(o, Seq::<u8>::empty(), m1);
            assert(c2 =~= seq![18u8] + (enc_bytes(enc_order_msg(o)) + Seq::<u8>::empty()));
        },
        None => {
            assert(c2 =~= Seq::<u8>::empty());
            assert(m2 =~= m1);
        },
    }
    assert(dec_add_order_fields(c2, m1) == dec_add_order_fields(Seq::<u8>::empty(), m2));
    lemma_add_order_done(m2);
    assert(m2 =~= m);
}

// ---------------------------------------------------------------------
// The Trade wire message.
// Field tags: taker=1 (tag byte 10), maker=2 (18), both nested Orders.
// ---------------------------------------------------------------------
/// Mathematical model of a `Trade` wire message.
#[verifier::ext_equal]
pub struct TradeMsgV {
    pub taker: Option<OrderMsgV>,
    pub maker: Option<OrderMsgV>,
}

/// A `Trade` wire message: the two executed orders.
#[derive(Debug, Clone, PartialEq)]
pub struct Trade {
    pub taker: Option<Order>,
    pub maker: Option<Order>,
}

impl View for Trade {
    type V = TradeMsgV;

    open spec fn view(&self) -> TradeMsgV {
        TradeMsgV {
            taker: match self.taker {
                Some(o) => Some(o@),
                None => None,
            },
            maker: match self.maker {
                Some(o) => Some(o@),
                None => None,
            },
        }
    }
}

/// The message with no field set.
pub open spec fn empty_trade_msg() -> TradeMsgV {
    TradeMsgV { taker: None, maker: None }
}

impl Default for Trade {
    fn default() -> (r: Trade)
        ensures
            r@ == empty_trade_msg(),
    {
        Trade { taker: None, maker: None }
    }
}

/// Encoding of a `Trade` message: each set field in tag order.
pub open spec fn enc_trade_msg(m: TradeMsgV) -> Seq<u8> {
    (match m.taker {
        Some(o) => seq![10u8] + enc_bytes(enc_order_msg(o)),
        None => Seq::<u8>::empty(),
    }) + (match m.maker {
        Some(o) => seq![18u8] + enc_bytes(enc_order_msg(o)),
        None => Seq::<u8>::empty(),
    })
}

/// Decoding of a `Trade` message body.
#[verifier::opaque]
pub open spec fn dec_trade_fields(s: Seq<u8>, m: TradeMsgV) -> Option<TradeMsgV>
    decreases s.len(),
    via dec_trade_fields_dec
{
    if s.len() == 0 {
        Some(m)
    } else {
        match dec_varint(s, 10) {
            None => None,
            Some((tag, r)) => {
                if tag >= 0x1_0000_0000_0000_0000 {
                    None
                } else if tag == 10 || tag == 18 {
                    match dec_bytes(r) {
                        None => None,
                        Some((p, r2)) => match dec_order_fields(p, empty_order_msg()) {
                            None => None,
                            Some(om) => if tag == 10 {
                                dec_trade_fields(r2, TradeMsgV { taker: Some(om), maker: m.maker })
                            } else {
                                dec_trade_fields(r2, TradeMsgV { taker: m.taker, maker: Some(om) })
                            },
                        },
                    }
                } else {
                    match skip_unknown(tag, r) {
                        None => None,
                        Some(r2) => dec_trade_fields(r2, m),
                    }
                }
            },
        }
    }
}

#[via_fn]
proof fn dec_trade_fields_dec(s: Seq<u8>, m: TradeMsgV) {
    lemma_dec_varint_len(s, 10);
    if s.len() != 0 {
        match dec_varint(s, 10) {
            None => {},
            Some((tag, r)) => {
                lemma_dec_bytes_len(r);
                lemma_skip_unknown_len(tag, r);
            },
        }
    }
}

/// Parse a complete `Trade` message body.
pub fn read_trade(data: &[u8]) -> (r: Option<Trade>)
    ensures
        match r {
            Some(m) => dec_trade_fields(data@, empty_trade_msg()) == Some(m@),
            None => dec_trade_fields(data@, empty_trade_msg()) is None,
        },
{
    let mut msg = Trade::default();
    let mut i: usize = 0;
    proof {
        assert(data@.skip(0) =~= data@);
    }
    loop
        invariant
            i <= data@.len(),
            dec_trade_fields(data@, empty_trade_msg()) == dec_trade_fields(
                data@.skip(i as int),
                msg@,
            ),
        decreases data@.len() - i,
    {
        if i >= data.len() {
            proof {
                reveal(dec_trade_fields);
                assert(data@.skip(i as int) =~= Seq::<u8>::empty());
            }
            return Some(msg);
        }
        let ghost s_cur = data@.skip(i as int);
        let ghost m_cur = msg@;
        match read_varint(data, i, 10) {
            None => {
                proof {
                    reveal(dec_trade_fields);
                    assert(dec_trade_fields(s_cur, m_cur) is None);
                }
                return None;
            },
            Some((tag, j)) => {
                if tag == 10 || tag == 18 {
                    match read_len_prefixed(data, j) {
                        None => {
                            proof {
                                reveal(dec_trade_fields);
                                assert(dec_trade_fields(s_cur, m_cur) is None);
                            }
                            return None;
                        },
                        Some((p, j2)) => {
                            match read_order(p) {
                                None => {
                                    proof {
                                        reveal(dec_trade_fields);
                                        assert(dec_trade_fields(s_cur, m_cur) is None);
                                    }
                                    return None;
                                },
                                Some(om) => {
                                    if tag == 10 {
                                        msg.taker = Some(om);
                                    } else {
                                        msg.maker = Some(om);
                                    }
                                    proof {
                                        reveal(dec_trade_fields);
                                        assert(dec_trade_fields(s_cur, m_cur)
                                            == dec_trade_fields(data@.skip(j2 as int), msg@));
                                    }
                                    i = j2;
                                },
                            }
                        },
                    }
                } else {
                    match skip_unknown_field(data, j, tag) {
                        None => {
                            proof {
                                reveal(dec_trade_fields);
                                assert(dec_trade_fields(s_cur, m_cur) is None);
                            }
                            return None;
                        },
                        Some(j2) => {
                            proof {
                                reveal(dec_trade_fields);
                                assert(dec_trade_fields(s_cur, m_cur) == dec_trade_fields(
                                    data@.skip(j2 as int),
                                    msg@,
                                ));
                            }
                            i = j2;
                        },
                    }
                }
            },
        }
    }
}

/// Serialize a `Trade` message body.
#[verifier::rlimit(50)]
pub fn write_trade(m: &Trade) -> (out: Vec<u8>)
    ensures
        out@ == enc_trade_msg(m@),
{
    let ghost c1: Seq<u8> = match m@.taker {
        Some(o) => seq![10u8] + enc_bytes(enc_order_msg(o)),
        None => Seq::<u8>::empty(),
    };
    let ghost c2: Seq<u8> = match m@.maker {
        Some(o) => seq![18u8] + enc_bytes(enc_order_msg(o)),
        None => Seq::<u8>::empty(),
    };
    let mut out: Vec<u8> = Vec::new();
    match &m.taker {
        Some(o) => {
            out.push(10u8);
            let body = write_order(o);
            write_len_prefixed(&mut out, &body);
        },
        None => {},
    }
    proof {
        assert(out@ =~= c1);
    }
    let ghost o1 = out@;
    match &m.maker {
        Some(o) => {
            out.push(18u8);
            let body = write_order(o);
            write_len_prefixed(&mut out, &body);
        },
        None => {},
    }
    proof {
        assert(out@ =~= o1 + c2);
        assert(out@ =~= c1 + c2);
        assert(enc_trade_msg(m@) == c1 + c2);
    }
    out
}

/// A well-formed `Trade` message: payloads fit the wire's lengths.
pub open spec fn trade_msg_wf(m: TradeMsgV) -> bool {
    &&& (m.taker matches Some(o) ==> order_msg_wf(o) && enc_order_msg(o).len()
        < 0x1_0000_0000_0000_0000)
    &&& (m.maker matches Some(o) ==> order_msg_wf(o) && enc_order_msg(o).len()
        < 0x1_0000_0000_0000_0000)
}

#[verifier::rlimit(50)]
proof fn lemma_trade_step(tg: u8, o: OrderMsgV, rest: Seq<u8>, m: TradeMsgV)
    requires
        tg == 10 || tg == 18,
        order_msg_wf(o),
        enc_order_msg(o).len() < 0x1_0000_0000_0000_0000,
    ensures
        dec_trade_fields(seq![tg] + (enc_bytes(enc_order_msg(o)) + rest), m) == dec_trade_fields(
            rest,
            if tg == 10 {
                TradeMsgV { taker: Some(o), maker: m.maker }
            } else {
                TradeMsgV { taker: m.taker, maker: Some(o) }
            },
        ),
{
    reveal(dec_trade_fields);
    lemma_step_len_field(tg, enc_order_msg(o), rest);
    lemma_order_round_trip(o);
}

#[verifier::rlimit(50)]
proof fn lemma_trade_done(m: TradeMsgV)
    ensures
        dec_trade_fields(Seq::<u8>::empty(), m) == Some(m),
{
    reveal(dec_trade_fields);
}

/// Round trip for the `Trade` message.
pub proof fn lemma_trade_round_trip(m: TradeMsgV)
    requires
        trade_msg_wf(m),
    ensures
        dec_trade_fields(enc_trade_msg(m), empty_trade_msg()) == Some(m),
{
    let c1: Seq<u8> = match m.taker {
        Some(o) => seq![10u8] + enc_bytes(enc_order_msg(o)),
        None => Seq::<u8>::empty(),
    };
    let c2: Seq<u8> = match m.maker {
        Some(o) => seq![18u8] + enc_bytes(enc_order_msg(o)),
        None => Seq::<u8>::empty(),
    };
    let m0 = empty_trade_msg();
    let m1 = TradeMsgV { taker: m.taker, ..m0 };
    let m2 = TradeMsgV { maker: m.maker, ..m1 };
    assert(enc_trade_msg(m) =~= c1 + c2);
    match m.taker {
        Some(o) => {
            lemma_trade_step(10u8, o, c2, m0);
            assert(c1 + c2 =~= seq![10u8] + (enc_bytes(enc_order_msg(o)) + c2));
        },
        None => {
            assert(c1 + c2 =~= c2);
            assert(m1 =~= m0);
        },
    }
    assert(dec_trade_fields(enc_trade_msg(m), m0) == dec_trade_fields(c2, m1));
    match m.maker {
        Some(o) => {
            lemma_trade_step(18u8, o, Seq::<u8>::empty(), m1);
            assert(c2 =~= seq![18u8] + (enc_bytes(enc_order_msg(o)) + Seq::<u8>::empty()));
        },
        None => {
            assert(c2 =~= Seq::<u8>::empty());
            assert(m2 =~= m1);
        },
    }
    assert(dec_trade_fields(c2, m1) == dec_trade_fields(Seq::<u8>::empty(), m2));
    lemma_trade_done(m2);
    assert(m2 =~= m);
}

// ---------------------------------------------------------------------
// The Actions wire message.
// Field tags: id_uuid=1 (tag byte 10), add_order=2 (18, oneof arm).
// ---------------------------------------------------------------------
/// Mathematical model of the `Actions` oneof.
#[allow(non_camel_case_types)]
#[verifier::ext_equal]
pub enum ActionOneofV {
    add_order(AddOrderMsgV),
    Unset,
}

/// The `Actions` oneof: exactly one action variant in this protocol.
/// `Unset` stands for an absent or unrecognized arm.
#[allow(non_camel_case_types)]
#[derive(Debug, Clone, PartialEq)]
pub enum OneOfaction_oneof {
    add_order(AddOrder),
    Unset,
}

/// Mathematical model of an `Actions` wire message.
#[verifier::ext_equal]
pub struct ActionsMsgV {
    pub id_uuid: Option<Seq<u8>>,
    pub action_oneof: ActionOneofV,
}

/// An `Actions` wire message.
#[derive(Debug, Clone, PartialEq)]
pub struct Actions {
    pub id_uuid: Option<Vec<u8>>,
    pub action_oneof: OneOfaction_oneof,
}

impl View for Actions {
    type V = ActionsMsgV;

    open spec fn view(&self) -> ActionsMsgV {
        ActionsMsgV {
            id_uuid: match self.id_uuid {
                Some(v) => Some(v@),
                None => None,
            },
            action_oneof: match self.action_oneof {
                OneOfaction_oneof::add_order(a) => ActionOneofV::add_order(a@),
                OneOfaction_oneof::Unset => ActionOneofV::Unset,
            },
        }
    }
}

/// The message with no field set.
pub open spec fn empty_actions_msg() -> ActionsMsgV {
    ActionsMsgV { id_uuid: None, action_oneof: ActionOneofV::Unset }
}

impl Default for Actions {
    fn default() -> (r: Actions)
        ensures
            r@ == empty_actions_msg(),
    {
        Actions { id_uuid: None, action_oneof: OneOfaction_oneof::Unset }
    }
}

/// Encoding of an `Actions` message: each set field in tag order.
pub open spec fn enc_actions_msg(m: ActionsMsgV) -> Seq<u8> {
    (match m.id_uuid {
        Some(p) => seq![10u8] + enc_bytes(p),
        None => Seq::<u8>::empty(),
    }) + (match m.action_oneof {
        ActionOneofV::add_order(a) => seq![18u8] + enc_bytes(enc_add_order_msg(a)),
        ActionOneofV::Unset => Seq::<u8>::empty(),
    })
}

/// Decoding of an `Actions` message body.
#[verifier::opaque]
pub open spec fn dec_actions_fields(s: Seq<u8>, m: ActionsMsgV) -> Option<ActionsMsgV>
    decreases s.len(),
    via dec_actions_fields_dec
{
    if s.len() == 0 {
        Some(m)
    } else {
        match dec_varint(s, 10) {
            None => None,
            Some((tag, r)) => {
                if tag >= 0x1_0000_0000_0000_0000 {
                    None
                } else if tag == 10 {
                    match dec_bytes(r) {
                        None => None,
                        Some((p, r2)) => dec_actions_fields(
                            r2,
                            ActionsMsgV { id_uuid: Some(p), action_oneof: m.action_oneof },
                        ),
                    }
                } else if tag == 18 {
                    match dec_bytes(r) {
                        None => None,
                        Some((p, r2)) => match dec_add_order_fields(p, empty_add_order_msg()) {
                            None => None,
                            Some(am) => dec_actions_fields(
                                r2,
                                ActionsMsgV {
                                    id_uuid: m.id_uuid,
                                    action_oneof: ActionOneofV::add_order(am),
                                },
                            ),
                        },
                    }
                } else {
                    match skip_unknown(tag, r) {
                        None => None,
                        Some(r2) => dec_actions_fields(r2, m),
                    }
                }
            },
        }
    }
}

#[via_fn]
proof fn dec_actions_fields_dec(s: Seq<u8>, m: ActionsMsgV) {
    lemma_dec_varint_len(s, 10);
    if s.len() != 0 {
        match dec_varint(s, 10) {
            None => {},
            Some((tag, r)) => {
                lemma_dec_bytes_len(r);
                lemma_skip_unknown_len(tag, r);
            },
        }
    }
}

/// Parse a complete `Actions` message body.
pub fn read_actions(data: &[u8]) -> (r: Option<Actions>)
    ensures
        match r {
            Some(m) => dec_actions_fields(data@, empty_actions_msg()) == Some(m@),
            None => dec_actions_fields(data@, empty_actions_msg()) is None,
        },
{
    let mut msg = Actions::default();
    let mut i: usize = 0;
    proof {
        assert(data@.skip(0) =~= data@);
    }
    loop
        invariant
            i <= data@.len(),
            dec_actions_fields(data@, empty_actions_msg()) == dec_actions_fields(
                data@.skip(i as int),
                msg@,
            ),
        decreases data@.len() - i,
    {
        if i >= data.len() {
            proof {
                reveal(dec_actions_fields);
                assert(data@.skip(i as int) =~= Seq::<u8>::empty());
            }
            return Some(msg);
        }
        let ghost s_cur = data@.skip(i as int);
        let ghost m_cur = msg@;
        match read_varint(data, i, 10) {
            None => {
                proof {
                    reveal(dec_actions_fields);
                    assert(dec_actions_fields(s_cur, m_cur) is None);
                }
                return None;
            },
            Some((tag, j)) => {
                if tag == 10 {
                    match read_len_prefixed(data, j) {
                        None => {
                            proof {
                                reveal(dec_actions_fields);
                                assert(dec_actions_fields(s_cur, m_cur) is None);
                            }
                            return None;
                        },
                        Some((p, j2)) => {
                            msg.id_uuid = Some(slice_to_vec(p));
                            proof {
                                reveal(dec_actions_fields);
                                assert(dec_actions_fields(s_cur, m_cur) == dec_actions_fields(
                                    data@.skip(j2 as int),
                                    msg@,
                                ));
                            }
                            i = j2;
                        },
                    }
                } else if tag == 18 {
                    match read_len_prefixed(data, j) {
                        None => {
                            proof {
                                reveal(dec_actions_fields);
                                assert(dec_actions_fields(s_cur, m_cur) is None);
                            }
                            return None;
                        },
                        Some((p, j2)) => {
                            match read_add_order(p) {
                                None => {
                                    proof {
                                        reveal(dec_actions_fields);
                                        assert(dec_actions_fields(s_cur, m_cur) is None);
                                    }
                                    return None;
                                },
                                Some(am) => {
                                    msg.action_oneof = OneOfaction_oneof::add_order(am);
                                    proof {
                                        reveal(dec_actions_fields);
                                        assert(dec_actions_fields(s_cur, m_cur)
                                            == dec_actions_fields(data@.skip(j2 as int), msg@));
                                    }
                                    i = j2;
                                },
                            }
                        },
                    }
                } else {
                    match skip_unknown_field(data, j, tag) {
                        None => {
                            proof {
                                reveal(dec_actions_fields);
                                assert(dec_actions_fields(s_cur, m_cur) is None);
                            }
                            return None;
                        },
                        Some(j2) => {
                            proof {
                                reveal(dec_actions_fields);
                                assert(dec_actions_fields(s_cur, m_cur) == dec_actions_fields(
                                    data@.skip(j2 as int),
                                    msg@,
                                ));
                            }
                            i = j2;
                        },
                    }
                }
            },
        }
    }
}

/// Serialize an `Actions` message body.
#[verifier::rlimit(50)]
pub fn write_actions(m: &Actions) -> (out: Vec<u8>)
    ensures
        out@ == enc_actions_msg(m@),
{
    let ghost c1: Seq<u8> = match m@.id_uuid {
        Some(p) => seq![10u8] + enc_bytes(p),
        None => Seq::<u8>::empty(),
    };
    let ghost c2: Seq<u8> = match m@.action_oneof {
        ActionOneofV::add_order(a) => seq![18u8] + enc_bytes(enc_add_order_msg(a)),
        ActionOneofV::Unset => Seq::<u8>::empty(),
    };
    let mut out: Vec<u8> = Vec::new();
    match &m.id_uuid {
        Some(p) => {
            out.push(10u8);
            write_len_prefixed(&mut out, p);
        },
        None => {},
    }
    proof {
        assert(out@ =~= c1);
    }
    let ghost o1 = out@;
    match &m.action_oneof {
        OneOfaction_oneof::add_order(a) => {
            out.push(18u8);
            let body = write_add_order(a);
            write_len_prefixed(&mut out, &body);
        },
        OneOfaction_oneof::Unset => {},
    }
    proof {
        assert(out@ =~= o1 + c2);
        assert(out@ =~= c1 + c2);
        assert(enc_actions_msg(m@) == c1 + c2);
    }
    out
}

/// A well-formed `Actions` message: payloads fit the wire's lengths.
pub open spec fn actions_msg_wf(m: ActionsMsgV) -> bool {
    &&& (m.id_uuid matches Some(p) ==> p.len() < 0x1_0000_0000_0000_0000)
    &&& (m.action_oneof matches ActionOneofV::add_order(a) ==> add_order_msg_wf(a)
        && enc_add_order_msg(a).len() < 0x1_0000_0000_0000_0000)
}

#[verifier::rlimit(50)]
proof fn lemma_actions_step_id(p: Seq<u8>, rest: Seq<u8>, m: ActionsMsgV)
    requires
        p.len() < 0x1_0000_0000_0000_0000,
    ensures
        dec_actions_fields(seq![10u8] + (enc_bytes(p) + rest), m) == dec_actions_fields(
            rest,
            ActionsMsgV { id_uuid: Some(p), action_oneof: m.action_oneof },
        ),
{
    reveal(dec_actions_fields);
    lemma_step_len_field(10u8, p, rest);
}

#[verifier::rlimit(50)]
proof fn lemma_actions_step_add_order(a: AddOrderMsgV, rest: Seq<u8>, m: ActionsMsgV)
    requires
        add_order_msg_wf(a),
        enc_add_order_msg(a).len() < 0x1_0000_0000_0000_0000,
    ensures
        dec_actions_fields(seq![18u8] + (enc_bytes(enc_add_order_msg(a)) + rest), m)
            == dec_actions_fields(
            rest,
            ActionsMsgV { id_uuid: m.id_uuid, action_oneof: ActionOneofV::add_order(a) },
        ),
{
    reveal(dec_actions_fields);
    lemma_step_len_field(18u8, enc_add_order_msg(a), rest);
    lemma_add_order_round_trip(a);
}

#[verifier::rlimit(50)]
proof fn lemma_actions_done(m: ActionsMsgV)
    ensures
        dec_actions_fields(Seq::<u8>::empty(), m) == Some(m),
{
    reveal(dec_actions_fields);
}

/// Round trip for the `Actions` message.
pub proof fn lemma_actions_round_trip(m: ActionsMsgV)
    requires
        actions_msg_wf(m),
    ensures
        dec_actions_fields(enc_actions_msg(m), empty_actions_msg()) == Some(m),
{
    let c1: Seq<u8> = match m.id_uuid {
        Some(p) => seq![10u8] + enc_bytes(p),
        None => Seq::<u8>::empty(),
    };
    let c2: Seq<u8> = match m.action_oneof {
        ActionOneofV::add_order(a) => seq![18u8] + enc_bytes(enc_add_order_msg(a)),
        ActionOneofV::Unset => Seq::<u8>::empty(),
    };
    let m0 = empty_actions_msg();
    let m1 = ActionsMsgV { id_uuid: m.id_uuid, ..m0 };
    let m2 = ActionsMsgV { action_oneof: m.action_oneof, ..m1 };
    assert(enc_actions_msg(m) =~= c1 + c2);
    match m.id_uuid {
        Some(p) => {
            lemma_actions_step_id(p, c2, m0);
            assert(c1 + c2 =~= seq![10u8] + (enc_bytes(p) + c2));
        },
        None => {
            assert(c1 + c2 =~= c2);
            assert(m1 =~= m0);
        },
    }
    assert(dec_actions_fields(enc_actions_msg(m), m0) == dec_actions_fields(c2, m1));
    match m.action_oneof {
        ActionOneofV::add_order(a) => {
            lemma_actions_step_add_order(a, Seq::<u8>::empty(), m1);
            assert(c2 =~= seq![18u8] + (enc_bytes(enc_add_order_msg(a)) + Seq::<u8>::empty()));
        },
        ActionOneofV::Unset => {
            assert(c2 =~= Seq::<u8>::empty());
            assert(m2 =~= m1);
        },
    }
    assert(dec_actions_fields(c2, m1) == dec_actions_fields(Seq::<u8>::empty(), m2));
    lemma_actions_done(m2);
    assert(m2 =~= m);
}

// ---------------------------------------------------------------------
// The outer Any envelope.
// Field tags: type_url=1 (tag byte 10), value=2 (18).
// ---------------------------------------------------------------------
/// Mathematical model of an `Any` envelope.
#[verifier::ext_equal]
pub struct AnyMsgV {
    pub type_url: Option<Seq<u8>>,
    pub value: Option<Seq<u8>>,
}

/// The outer envelope: a type name and the nested message's bytes.
#[derive(Debug, Clone, PartialEq)]
pub struct Any {
    pub type_url: Option<Vec<u8>>,
    pub value: Option<Vec<u8>>,
}

impl View for Any {
    type V = AnyMsgV;

    open spec fn view(&self) -> AnyMsgV {
        AnyMsgV {
            type_url: match self.type_url {
                Some(v) => Some(v@),
                None => None,
            },
            value: match self.value {
                Some(v) => Some(v@),
                None => None,
            },
        }
    }
}

/// The message with no field set.
pub open spec fn empty_any_msg() -> AnyMsgV {
    AnyMsgV { type_url: None, value: None }
}

impl Default for Any {
    fn default() -> (r: Any)
        ensures
            r@ == empty_any_msg(),
    {
        Any { type_url: None, value: None }
    }
}

/// Encoding of an `Any` envelope: each set field in tag order.
pub open spec fn enc_any_msg(m: AnyMsgV) -> Seq<u8> {
    (match m.type_url {
        Some(p) => seq![10u8] + enc_bytes(p),
        None => Seq::<u8>::empty(),
    }) + (match m.value {
        Some(p) => seq![18u8] + enc_bytes(p),
        None => Seq::<u8>::empty(),
    })
}

/// Decoding of an `Any` envelope body.
#[verifier::opaque]
pub open spec fn dec_any_fields(s: Seq<u8>, m: AnyMsgV) -> Option<AnyMsgV>
    decreases s.len(),
    via dec_any_fields_dec
{
    if s.len() == 0 {
        Some(m)
    } else {
        match dec_varint(s, 10) {
            None => None,
            Some((tag, r)) => {
                if tag >= 0x1_0000_0000_0000_0000 {
                    None
                } else if tag == 10 {
                    match dec_bytes(r) {
                        None => None,
                        Some((p, r2)) => dec_any_fields(
                            r2,
                            AnyMsgV { type_url: Some(p), value: m.value },
                        ),
                    }
                } else if tag == 18 {
                    match dec_bytes(r) {
                        None => None,
                        Some((p, r2)) => dec_any_fields(
                            r2,
                            AnyMsgV { type_url: m.type_url, value: Some(p) },
                        ),
                    }
                } else {
                    match skip_unknown(tag, r) {
                        None => None,
                        Some(r2) => dec_any_fields(r2, m),
                    }
                }
            },
        }
    }
}

#[via_fn]
proof fn dec_any_fields_dec(s: Seq<u8>, m: AnyMsgV) {
    lemma_dec_varint_len(s, 10);
    if s.len() != 0 {
        match dec_varint(s, 10) {
            None => {},
            Some((tag, r)) => {
                lemma_dec_bytes_len(r);
                lemma_skip_unknown_len(tag, r);
            },
        }
    }
}

/// Parse a complete `Any` envelope body.
pub fn read_any(data: &[u8]) -> (r: Option<Any>)
    ensures
        match r {
            Some(m) => dec_any_fields(data@, empty_any_msg()) == Some(m@),
            None => dec_any_fields(data@, empty_any_msg()) is None,
        },
{
    let mut msg = Any::default();
    let mut i: usize = 0;
    proof {
        assert(data@.skip(0) =~= data@);
    }
    loop
        invariant
            i <= data@.len(),
            dec_any_fields(data@, empty_any_msg()) == dec_any_fields(
                data@.skip(i as int),
                msg@,
            ),
        decreases data@.len() - i,
    {
        if i >= data.len() {
            proof {
                reveal(dec_any_fields);
                assert(data@.skip(i as int) =~= Seq::<u8>::empty());
            }
            return Some(msg);
        }
        let ghost s_cur = data@.skip(i as int);
        let ghost m_cur = msg@;
        match read_varint(data, i, 10) {
            None => {
                proof {
                    reveal(dec_any_fields);
                    assert(dec_any_fields(s_cur, m_cur) is None);
                }
                return None;
            },
            Some((tag, j)) => {
                if tag == 10 || tag == 18 {
                    match read_len_prefixed(data, j) {
                        None => {
                            proof {
                                reveal(dec_any_fields);
                                assert(dec_any_fields(s_cur, m_cur) is None);
                            }
                            return None;
                        },
                        Some((p, j2)) => {
                            if tag == 10 {
                                msg.type_url = Some(slice_to_vec(p));
                            } else {
                                msg.value = Some(slice_to_vec(p));
                            }
                            proof {
                                reveal(dec_any_fields);
                                assert(dec_any_fields(s_cur, m_cur) == dec_any_fields(
                                    data@.skip(j2 as int),
                                    msg@,
                                ));
                            }
                            i = j2;
                        },
                    }
                } else {
                    match skip_unknown_field(data, j, tag) {
                        None => {
                            proof {
                                reveal(dec_any_fields);
                                assert(dec_any_fields(s_cur, m_cur) is None);
                            }
                            return None;
                        },
                        Some(j2) => {
                            proof {
                                reveal(dec_any_fields);
                                assert(dec_any_fields(s_cur, m_cur) == dec_any_fields(
                                    data@.skip(j2 as int),
                                    msg@,
                                ));
                            }
                            i = j2;
                        },
                    }
                }
            },
        }
    }
}

/// Serialize an `Any` envelope body.
#[verifier::rlimit(50)]
pub fn write_any(m: &Any) -> (out: Vec<u8>)
    ensures
        out@ == enc_any_msg(m@),
{
    let ghost c1: Seq<u8> = match m@.type_url {
        Some(p) => seq![10u8] + enc_bytes(p),
        None => Seq::<u8>::empty(),
    };
    let ghost c2: Seq<u8> = match m@.value {
        Some(p) => seq![18u8] + enc_bytes(p),
        None => Seq::<u8>::empty(),
    };
    let mut out: Vec<u8> = Vec::new();
    match &m.type_url {
        Some(p) => {
            out.push(10u8);
            write_len_prefixed(&mut out, p);
        },
        None => {},
    }
    proof {
        assert(out@ =~= c1);
    }
    let ghost o1 = out@;
    match &m.value {
        Some(p) => {
            out.push(18u8);
            write_len_prefixed(&mut out, p);
        },
        None => {},
    }
    proof {
        assert(out@ =~= o1 + c2);
        assert(out@ =~= c1 + c2);
        assert(enc_any_msg(m@) == c1 + c2);
    }
    out
}

/// A well-formed `Any` envelope: payloads fit the wire's lengths.
pub open spec fn any_msg_wf(m: AnyMsgV) -> bool {
    &&& (m.type_url matches Some(p) ==> p.len() < 0x1_0000_0000_0000_0000)
    &&& (m.value matches Some(p) ==> p.len() < 0x1_0000_0000_0000_0000)
}

#[verifier::rlimit(50)]
proof fn lemma_any_step(tg: u8, p: Seq<u8>, rest: Seq<u8>, m: AnyMsgV)
    requires
        tg == 10 || tg == 18,
        p.len() < 0x1_0000_0000_0000_0000,
    ensures
        dec_any_fields(seq![tg] + (enc_bytes(p) + rest), m) == dec_any_fields(
            rest,
            if tg == 10 {
                AnyMsgV { type_url: Some(p), value: m.value }
            } else {
                AnyMsgV { type_url: m.type_url, value: Some(p) }
            },
        ),
{
    reveal(dec_any_fields);
    lemma_step_len_field(tg, p, rest);
}

#[verifier::rlimit(50)]
proof fn lemma_any_done(m: AnyMsgV)
    ensures
        dec_any_fields(Seq::<u8>::empty(), m) == Some(m),
{
    reveal(dec_any_fields);
}

/// Round trip for the `Any` envelope.
pub proof fn lemma_any_round_trip(m: AnyMsgV)
    requires
        any_msg_wf(m),
    ensures
        dec_any_fields(enc_any_msg(m), empty_any_msg()) == Some(m),
{
    let c1: Seq<u8> = match m.type_url {
        Some(p) => seq![10u8] + enc_bytes(p),
        None => Seq::<u8>::empty(),
    };
    let c2: Seq<u8> = match m.value {
        Some(p) => seq![18u8] + enc_bytes(p),
        None => Seq::<u8>::empty(),
    };
    let m0 = empty_any_msg();
    let m1 = AnyMsgV { type_url: m.type_url, ..m0 };
    let m2 = AnyMsgV { value: m.value, ..m1 };
    assert(enc_any_msg(m) =~= c1 + c2);
    match m.type_url {
        Some(p) => {
            lemma_any_step(10u8, p, c2, m0);
            assert(c1 + c2 =~= seq![10u8] + (enc_bytes(p) + c2));
        },
        None => {
            assert(c1 + c2 =~= c2);
            assert(m1 =~= m0);
        },
    }
    assert(dec_any_fields(enc_any_msg(m), m0) == dec_any_fields(c2, m1));
    match m.value {
        Some(p) => {
            lemma_any_step(18u8, p, Seq::<u8>::empty(), m1);
            assert(c2 =~= seq![18u8] + (enc_bytes(p) + Seq::<u8>::empty()));
        },
        None => {
            assert(c2 =~= Seq::<u8>::empty());
            assert(m2 =~= m1);
        },
    }
    assert(dec_any_fields(c2, m1) == dec_any_fields(Seq::<u8>::empty(), m2));
    lemma_any_done(m2);
    assert(m2 =~= m);
}

// ---------------------------------------------------------------------
// Length-prefixed messages, as they travel on a stream.
// ---------------------------------------------------------------------
/// Decode one length-prefixed `Any` envelope from the front of a stream;
/// bytes after the prefixed message are ignored.
pub open spec fn dec_prefixed_any(s: Seq<u8>) -> Option<AnyMsgV> {
    match dec_bytes(s) {
        None => None,
        Some((p, _rest)) => dec_any_fields(p, empty_any_msg()),
    }
}

/// Decode one length-prefixed `Actions` message from the front of a
/// stream; bytes after the prefixed message are ignored.
pub open spec fn dec_prefixed_actions(s: Seq<u8>) -> Option<ActionsMsgV> {
    match dec_bytes(s) {
        None => None,
        Some((p, _rest)) => dec_actions_fields(p, empty_actions_msg()),
    }
}

/// Parse one length-prefixed `Any` envelope.
pub fn read_prefixed_any(data: &[u8]) -> (r: Option<Any>)
    ensures
        match r {
            Some(m) => dec_prefixed_any(data@) == Some(m@),
            None => dec_prefixed_any(data@) is None,
        },
{
    proof {
        assert(data@.skip(0) =~= data@);
    }
    match read_len_prefixed(data, 0) {
        None => None,
        Some((p, _j)) => read_any(p),
    }
}

/// Parse one length-prefixed `Actions` message.
pub fn read_prefixed_actions(data: &[u8]) -> (r: Option<Actions>)
    ensures
        match r {
            Some(m) => dec_prefixed_actions(data@) == Some(m@),
            None => dec_prefixed_actions(data@) is None,
        },
{
    proof {
        assert(data@.skip(0) =~= data@);
    }
    match read_len_prefixed(data, 0) {
        None => None,
        Some((p, _j)) => read_actions(p),
    }
}

/// Serialize an `Any` envelope with its length prefix.
pub fn serialize_any(m: &Any) -> (out: Vec<u8>)
    ensures
        out@ == enc_bytes(enc_any_msg(m@)),
{
    let body = write_any(m);
    let mut out: Vec<u8> = Vec::new();
    write_len_prefixed(&mut out, &body);
    proof {
        assert(out@ =~= enc_bytes(enc_any_msg(m@)));
    }
    out
}

/// Serialize an `Actions` message with its length prefix.
pub fn serialize_actions(m: &Actions) -> (out: Vec<u8>)
    ensures
        out@ == enc_bytes(enc_actions_msg(m@)),
{
    let body = write_actions(m);
    let mut out: Vec<u8> = Vec::new();
    write_len_prefixed(&mut out, &body);
    proof {
        assert(out@ =~= enc_bytes(enc_actions_msg(m@)));
    }
    out
}

/// Round trip for a length-prefixed `Any` envelope.
pub proof fn lemma_prefixed_any_round_trip(m: AnyMsgV)
    requires
        any_msg_wf(m),
        enc_any_msg(m).len() < 0x1_0000_0000_0000_0000,
    ensures
        dec_prefixed_any(enc_bytes(enc_any_msg(m))) == Some(m),
{
    lemma_bytes_round_trip(enc_any_msg(m), Seq::<u8>::empty());
    assert(enc_bytes(enc_any_msg(m)) + Seq::<u8>::empty() =~= enc_bytes(enc_any_msg(m)));
    lemma_any_round_trip(m);
}

/// Round trip for a length-prefixed `Actions` message.
pub proof fn lemma_prefixed_actions_round_trip(m: ActionsMsgV)
    requires
        actions_msg_wf(m),
        enc_actions_msg(m).len() < 0x1_0000_0000_0000_0000,
    ensures
        dec_prefixed_actions(enc_bytes(enc_actions_msg(m))) == Some(m),
{
    lemma_bytes_round_trip(enc_actions_msg(m), Seq::<u8>::empty());
    assert(enc_bytes(enc_actions_msg(m)) + Seq::<u8>::empty() =~= enc_bytes(enc_actions_msg(m)));
    lemma_actions_round_trip(m);
}

} // verus!


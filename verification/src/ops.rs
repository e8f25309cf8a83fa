use vstd::prelude::*;
use crate::error::ParseError;
use crate::parser::{be_uint, Parser};
use crate::text::{chars_to_string, dec_text, hex_text_min2, push_decimal, push_hex_min2, push_str};

verus! {

/// The number of value bytes that follow an operator byte: bits 4 and 5
/// of the operator encode 1, 2, 4 or 8.
pub open spec fn op_len(op: u8) -> nat {
    let b = (op & 0x30u8) >> 4u8;
    if b == 0 {
        1
    } else if b == 1 {
        2
    } else if b == 2 {
        4
    } else {
        8
    }
}

/// The operator byte, its value and the position just past it, for the
/// operator that starts at `pos`; `None` when the bytes run out first.
pub open spec fn op_at(s: Seq<u8>, pos: int) -> Option<(u8, u64, int)> {
    if 0 <= pos < s.len() && pos + 1 + op_len(s[pos]) <= s.len() {
        let n = op_len(s[pos]);
        Some((s[pos], be_uint(s.subrange(pos + 1, pos + 1 + n)) as u64, pos + 1 + n))
    } else {
        None
    }
}

/// The end-of-list bit of an operator byte.
pub open spec fn is_end_of_list(op: u8) -> bool {
    op & 0x80u8 == 0x80u8
}

/// The position just past the operator list that starts at `pos`: the
/// list ends with the first operator whose end-of-list bit is set.
/// `None` when the bytes run out before that operator is complete.
pub open spec fn op_list_end(s: Seq<u8>, pos: int) -> Option<int>
    decreases s.len() - pos,
{
    match op_at(s, pos) {
        None => None,
        Some((op, _v, next)) => {
            if is_end_of_list(op) {
                Some(next)
            } else {
                op_list_end(s, next)
            }
        },
    }
}

/// An operator list ends strictly after it starts and within the bytes.
pub proof fn lemma_op_list_end_bounds(s: Seq<u8>, pos: int)
    ensures
        op_list_end(s, pos) matches Some(e) ==> pos < e <= s.len(),
    decreases s.len() - pos,
{
    match op_at(s, pos) {
        None => {},
        Some((op, _v, next)) => {
            if !is_end_of_list(op) {
                lemma_op_list_end_bounds(s, next);
            }
        },
    }
}

/// The text of a numeric operator: its comparison and the value in
/// decimal; "false" and "any" when it matches nothing or everything.
pub open spec fn numeric_op_text(op: u8, v: u64) -> Seq<char> {
    let f = op & 0x07u8;
    if f == 0 {
        "false"@
    } else if f == 1 {
        "="@ + dec_text(v as nat)
    } else if f == 2 {
        ">"@ + dec_text(v as nat)
    } else if f == 3 {
        ">="@ + dec_text(v as nat)
    } else if f == 4 {
        "<"@ + dec_text(v as nat)
    } else if f == 5 {
        "<="@ + dec_text(v as nat)
    } else if f == 6 {
        "!="@ + dec_text(v as nat)
    } else {
        "any"@
    }
}

/// The text of a bitmask operator: "!" for NOT, "=" for match, then the
/// bitmask in hexadecimal with at least two digits.
pub open spec fn bitmask_op_text(op: u8, v: u64) -> Seq<char> {
    (if op & 0x02u8 == 0x02u8 {
        "!"@
    } else {
        Seq::empty()
    }) + (if op & 0x01u8 == 0x01u8 {
        "="@
    } else {
        Seq::empty()
    }) + "0x"@ + hex_text_min2(v as nat)
}

/// The text that joins an operator to the one before it.
pub open spec fn op_separator(op: u8) -> Seq<char> {
    if op & 0x40u8 == 0x40u8 {
        " && "@
    } else {
        " || "@
    }
}

/// The text of the operators from `pos` on, up to the end of the list or
/// of the bytes; a truncated operator ends the text with "<malformed-ops>".
pub open spec fn ops_text_from(s: Seq<u8>, pos: int, first: bool, bitmask: bool) -> Seq<char>
    decreases s.len() - pos,
{
    if pos >= s.len() {
        Seq::empty()
    } else {
        match op_at(s, pos) {
            None => "<malformed-ops>"@,
            Some((op, v, next)) => (if first {
                Seq::empty()
            } else {
                op_separator(op)
            }) + (if bitmask {
                bitmask_op_text(op, v)
            } else {
                numeric_op_text(op, v)
            }) + (if is_end_of_list(op) {
                Seq::empty()
            } else {
                ops_text_from(s, next, false, bitmask)
            }),
        }
    }
}

/// The text of an operator list.
pub open spec fn ops_text(s: Seq<u8>, bitmask: bool) -> Seq<char> {
    ops_text_from(s, 0, true, bitmask)
}

/// The number of value bytes encoded in an operator byte.
fn op_to_len(op: u8) -> (r: usize)
    ensures
        r == op_len(op),
        r == 1 || r == 2 || r == 4 || r == 8,
{
    let b = (op & 0b00110000) >> 4;
    if b == 0 {
        1
    } else if b == 1 {
        2
    } else if b == 2 {
        4
    } else {
        8
    }
}

/// A numeric operator with its value (RFC 8955 §4.2.1.1).
pub struct NumericOp(u8, u64);

impl View for NumericOp {
    type V = (u8, u64);

    closed spec fn view(&self) -> (u8, u64) {
        (self.0, self.1)
    }
}

impl NumericOp {
    /// Whether this is the last operator of its list.
    pub fn end_of_list(&self) -> (r: bool)
        ensures
            r == is_end_of_list(self@.0),
    {
        self.0 & 0x80 == 0x80
    }

    /// Whether this operator is ANDed with the previous one.
    pub fn and(&self) -> (r: bool)
        ensures
            r == (self@.0 & 0x40u8 == 0x40u8),
    {
        self.0 & 0x40 == 0x40
    }

    /// The number of value bytes.
    pub fn length(&self) -> (r: usize)
        ensures
            r == op_len(self@.0),
    {
        op_to_len(self.0)
    }

    /// The less-than bit.
    pub fn lt(&self) -> (r: bool)
        ensures
            r == (self@.0 & 0x04u8 == 0x04u8),
    {
        self.0 & 0x04 == 0x04
    }

    /// The greater-than bit.
    pub fn gt(&self) -> (r: bool)
        ensures
            r == (self@.0 & 0x02u8 == 0x02u8),
    {
        self.0 & 0x02 == 0x02
    }

    /// The equal bit.
    pub fn eq(&self) -> (r: bool)
        ensures
            r == (self@.0 & 0x01u8 == 0x01u8),
    {
        self.0 & 0x01 == 0x01
    }

    /// The value the operator compares with.
    pub fn value(&self) -> (r: u64)
        ensures
            r == self@.1,
    {
        self.1
    }

    /// Appends the text of the operator.
    pub fn write_text(&self, out: &mut Vec<char>)
        ensures
            final(out)@ == old(out)@ + numeric_op_text(self@.0, self@.1),
    {
        let f = self.0 & 0x07;
        if f == 0 {
            push_str(out, "false");
        } else if f == 1 {
            push_str(out, "=");
            push_decimal(out, self.1);
        } else if f == 2 {
            push_str(out, ">");
            push_decimal(out, self.1);
        } else if f == 3 {
            push_str(out, ">=");
            push_decimal(out, self.1);
        } else if f == 4 {
            push_str(out, "<");
            push_decimal(out, self.1);
        } else if f == 5 {
            push_str(out, "<=");
            push_decimal(out, self.1);
        } else if f == 6 {
            push_str(out, "!=");
            push_decimal(out, self.1);
        } else {
            push_str(out, "any");
        }
        proof {
            assert(final(out)@ =~= old(out)@ + numeric_op_text(self@.0, self@.1));
        }
    }

    /// The operator in text, such as ">=1024".
    pub fn to_string(&self) -> (s: String)
        ensures
            s@ == numeric_op_text(self@.0, self@.1),
    {
        let mut out: Vec<char> = Vec::new();
        self.write_text(&mut out);
        chars_to_string(&out)
    }

    /// Reads an operator byte and the value it announces.
    pub fn parse(parser: &mut Parser) -> (r: Result<Self, ParseError>)
        requires
            old(parser).wf(),
        ensures
            final(parser).wf(),
            final(parser).data() == old(parser).data(),
            match r {
                Ok(op) => op_at(old(parser).data(), old(parser).position()) == Some(
                    (op@.0, op@.1, final(parser).position()),
                ),
                Err(e) => {
                    &&& e == ParseError::ShortInput
                    &&& op_at(old(parser).data(), old(parser).position()) is None
                },
            },
    {
        let ghost data = parser.data();
        let ghost start = parser.position();
        let op = parser.parse_u8()?;
        let n = op_to_len(op);
        let value = parser.parse_uint_be(n)?;
        assert(be_uint(data.subrange(start + 1, start + 1 + n)) as u64 == value);
        Ok(NumericOp(op, value))
    }
}

/// A bitmask operator with its value (RFC 8955 §4.2.1.2).
pub struct BitmaskOp(u8, u64);

impl View for BitmaskOp {
    type V = (u8, u64);

    closed spec fn view(&self) -> (u8, u64) {
        (self.0, self.1)
    }
}

impl BitmaskOp {
    /// Whether this is the last operator of its list.
    pub fn end_of_list(&self) -> (r: bool)
        ensures
            r == is_end_of_list(self@.0),
    {
        self.0 & 0x80 == 0x80
    }

    /// Whether this operator is ANDed with the previous one.
    pub fn and(&self) -> (r: bool)
        ensures
            r == (self@.0 & 0x40u8 == 0x40u8),
    {
        self.0 & 0x40 == 0x40
    }

    /// The NOT bit.
    pub fn not(&self) -> (r: bool)
        ensures
            r == (self@.0 & 0x02u8 == 0x02u8),
    {
        self.0 & 0x02 == 0x02
    }

    /// The match bit: all bits of the value must be set, not just any.
    pub fn match_exact(&self) -> (r: bool)
        ensures
            r == (self@.0 & 0x01u8 == 0x01u8),
    {
        self.0 & 0x01 == 0x01
    }

    /// The bitmask the operator tests.
    pub fn value(&self) -> (r: u64)
        ensures
            r == self@.1,
    {
        self.1
    }

    /// Appends the text of the operator.
    pub fn write_text(&self, out: &mut Vec<char>)
        ensures
            final(out)@ == old(out)@ + bitmask_op_text(self@.0, self@.1),
    {
        if self.not() {
            push_str(out, "!");
        }
        if self.match_exact() {
            push_str(out, "=");
        }
        push_str(out, "0x");
        push_hex_min2(out, self.1);
        proof {
            assert(final(out)@ =~= old(out)@ + bitmask_op_text(self@.0, self@.1));
        }
    }

    /// The operator in text, such as "!=0x02".
    pub fn to_string(&self) -> (s: String)
        ensures
            s@ == bitmask_op_text(self@.0, self@.1),
    {
        let mut out: Vec<char> = Vec::new();
        self.write_text(&mut out);
        chars_to_string(&out)
    }

    /// Reads an operator byte and the value it announces.
    pub fn parse(parser: &mut Parser) -> (r: Result<Self, ParseError>)
        requires
            old(parser).wf(),
        ensures
            final(parser).wf(),
            final(parser).data() == old(parser).data(),
            match r {
                Ok(op) => op_at(old(parser).data(), old(parser).position()) == Some(
                    (op@.0, op@.1, final(parser).position()),
                ),
                Err(e) => {
                    &&& e == ParseError::ShortInput
                    &&& op_at(old(parser).data(), old(parser).position()) is None
                },
            },
    {
        let ghost data = parser.data();
        let ghost start = parser.position();
        let op = parser.parse_u8()?;
        let n = op_to_len(op);
        let value = parser.parse_uint_be(n)?;
        assert(be_uint(data.subrange(start + 1, start + 1 + n)) as u64 == value);
        Ok(BitmaskOp(op, value))
    }
}

/// Reads a list of numeric operators and returns its bytes.
pub fn parse_numeric_op_octets(parser: &mut Parser) -> (r: Result<Vec<u8>, ParseError>)
    requires
        old(parser).wf(),
    ensures
        final(parser).wf(),
        final(parser).data() == old(parser).data(),
        match r {
            Ok(v) => {
                &&& op_list_end(old(parser).data(), old(parser).position()) == Some(
                    final(parser).position(),
                )
                &&& v@ == old(parser).data().subrange(
                    old(parser).position(),
                    final(parser).position(),
                )
            },
            Err(e) => {
                &&& e == ParseError::ShortInput
                &&& op_list_end(old(parser).data(), old(parser).position()) is None
            },
        },
{
    let ghost data = parser.data();
    let pos = parser.pos();
    let mut done = false;
    while !done
        invariant
            parser.wf(),
            parser.data() == data,
            data == old(parser).data(),
            pos == old(parser).position(),
            pos <= parser.position(),
            op_list_end(data, pos as int) == if done {
                Some(parser.position())
            } else {
                op_list_end(data, parser.position())
            },
        decreases data.len() - parser.position() + if done { 0int } else { 1int },
    {
        let op = NumericOp::parse(parser)?;
        done = op.end_of_list();
    }
    let octets_len = parser.pos() - pos;
    parser.seek(pos)?;
    parser.parse_octets(octets_len)
}

/// Reads a list of bitmask operators and returns its bytes.
pub fn parse_bitmask_op_octets(parser: &mut Parser) -> (r: Result<Vec<u8>, ParseError>)
    requires
        old(parser).wf(),
    ensures
        final(parser).wf(),
        final(parser).data() == old(parser).data(),
        match r {
            Ok(v) => {
                &&& op_list_end(old(parser).data(), old(parser).position()) == Some(
                    final(parser).position(),
                )
                &&& v@ == old(parser).data().subrange(
                    old(parser).position(),
                    final(parser).position(),
                )
            },
            Err(e) => {
                &&& e == ParseError::ShortInput
                &&& op_list_end(old(parser).data(), old(parser).position()) is None
            },
        },
{
    let ghost data = parser.data();
    let pos = parser.pos();
    let mut done = false;
    while !done
        invariant
            parser.wf(),
            parser.data() == data,
            data == old(parser).data(),
            pos == old(parser).position(),
            pos <= parser.position(),
            op_list_end(data, pos as int) == if done {
                Some(parser.position())
            } else {
                op_list_end(data, parser.position())
            },
        decreases data.len() - parser.position() + if done { 0int } else { 1int },
    {
        let op = BitmaskOp::parse(parser)?;
        done = op.end_of_list();
    }
    let octets_len = parser.pos() - pos;
    parser.seek(pos)?;
    parser.parse_octets(octets_len)
}

/// Appends the text of a list of numeric operators.
pub fn fmt_numeric_ops(raw: &[u8], out: &mut Vec<char>)
    ensures
        final(out)@ == old(out)@ + ops_text(raw@, false),
{
    let mut parser = Parser::from_ref(raw);
    let mut first = true;
    let mut done = false;
    while !done && parser.remaining() > 0
        invariant
            parser.wf(),
            parser.data() == raw@,
            out@ + (if done {
                Seq::empty()
            } else {
                ops_text_from(raw@, parser.position(), first, false)
            }) == old(out)@ + ops_text(raw@, false),
        decreases raw@.len() - parser.position() + if done { 0int } else { 1int },
    {
        let ghost pos = parser.position();
        let ghost before = out@;
        let ghost was_first = first;
        let op = match NumericOp::parse(&mut parser) {
            Ok(op) => op,
            Err(_) => {
                push_str(out, "<malformed-ops>");
                return;
            },
        };
        if !first {
            if op.and() {
                push_str(out, " && ");
            } else {
                push_str(out, " || ");
            }
        }
        first = false;
        op.write_text(out);
        if op.end_of_list() {
            done = true;
        }
        proof {
            let rest = if done {
                Seq::empty()
            } else {
                ops_text_from(raw@, parser.position(), false, false)
            };
            assert(out@ + rest =~= before + ops_text_from(raw@, pos, was_first, false));
        }
    }
}

/// Appends the text of a list of bitmask operators.
pub fn fmt_bitmask_ops(raw: &[u8], out: &mut Vec<char>)
    ensures
        final(out)@ == old(out)@ + ops_text(raw@, true),
{
    let mut parser = Parser::from_ref(raw);
    let mut first = true;
    let mut done = false;
    while !done && parser.remaining() > 0
        invariant
            parser.wf(),
            parser.data() == raw@,
            out@ + (if done {
                Seq::empty()
            } else {
                ops_text_from(raw@, parser.position(), first, true)
            }) == old(out)@ + ops_text(raw@, true),
        decreases raw@.len() - parser.position() + if done { 0int } else { 1int },
    {
        let ghost pos = parser.position();
        let ghost before = out@;
        let ghost was_first = first;
        let op = match BitmaskOp::parse(&mut parser) {
            Ok(op) => op,
            Err(_) => {
                push_str(out, "<malformed-ops>");
                return;
            },
        };
        if !first {
            if op.and() {
                push_str(out, " && ");
            } else {
                push_str(out, " || ");
            }
        }
        first = false;
        op.write_text(out);
        if op.end_of_list() {
            done = true;
        }
        proof {
            let rest = if done {
                Seq::empty()
            } else {
                ops_text_from(raw@, parser.position(), false, true)
            };
            assert(out@ + rest =~= before + ops_text_from(raw@, pos, was_first, true));
        }
    }
}

} // verus!

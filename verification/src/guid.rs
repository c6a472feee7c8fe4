use vstd::prelude::*;
use crate::model::Value;

verus! {

/// A 128-bit identifier held as 11 fixed-width integer fields (one 32-bit, two
/// 16-bit, eight 8-bit), compared as a field tuple; the default value is all zero.
#[derive(Clone, Copy, Debug, PartialEq, Eq, Structural)]
pub struct Guid(
    pub u32,
    pub u16,
    pub u16,
    pub u8,
    pub u8,
    pub u8,
    pub u8,
    pub u8,
    pub u8,
    pub u8,
    pub u8,
);

impl Default for Guid {
    fn default() -> (r: Guid)
        ensures
            r == Guid(0u32, 0u16, 0u16, 0u8, 0u8, 0u8, 0u8, 0u8, 0u8, 0u8, 0u8),
    {
        Guid(0, 0, 0, 0, 0, 0, 0, 0, 0, 0, 0)
    }
}

/// The shape a `GuidAttribute` argument list must have: at least 11 positional
/// arguments, the first 32-bit, the next two 16-bit, the remaining eight 8-bit.
pub open spec fn guid_args_wf(args: Seq<(String, Value)>) -> bool {
    &&& args.len() >= 11
    &&& args[0].1 matches Value::U32(_)
    &&& args[1].1 matches Value::U16(_)
    &&& args[2].1 matches Value::U16(_)
    &&& args[3].1 matches Value::U8(_)
    &&& args[4].1 matches Value::U8(_)
    &&& args[5].1 matches Value::U8(_)
    &&& args[6].1 matches Value::U8(_)
    &&& args[7].1 matches Value::U8(_)
    &&& args[8].1 matches Value::U8(_)
    &&& args[9].1 matches Value::U8(_)
    &&& args[10].1 matches Value::U8(_)
}

pub open spec fn spec_u32_arg(v: Value) -> u32 {
    match v {
        Value::U32(x) => x,
        _ => 0,
    }
}

pub open spec fn spec_u16_arg(v: Value) -> u16 {
    match v {
        Value::U16(x) => x,
        _ => 0,
    }
}

pub open spec fn spec_u8_arg(v: Value) -> u8 {
    match v {
        Value::U8(x) => x,
        _ => 0,
    }
}

/// The value a well-shaped argument list denotes.
pub open spec fn spec_guid_from_args(args: Seq<(String, Value)>) -> Guid {
    Guid(
        spec_u32_arg(args[0].1),
        spec_u16_arg(args[1].1),
        spec_u16_arg(args[2].1),
        spec_u8_arg(args[3].1),
        spec_u8_arg(args[4].1),
        spec_u8_arg(args[5].1),
        spec_u8_arg(args[6].1),
        spec_u8_arg(args[7].1),
        spec_u8_arg(args[8].1),
        spec_u8_arg(args[9].1),
        spec_u8_arg(args[10].1),
    )
}

impl Guid {
    /// Reads the 11 numeric fields out of an attribute's ordered argument list.
    pub fn from_args(args: &[(String, Value)]) -> (r: Guid)
        requires
            guid_args_wf(args@),
        ensures
            r == spec_guid_from_args(args@),
    {
        let a0 = match &args[0].1 {
            Value::U32(x) => *x,
            _ => 0,
        };
        let a1 = match &args[1].1 {
            Value::U16(x) => *x,
            _ => 0,
        };
        let a2 = match &args[2].1 {
            Value::U16(x) => *x,
            _ => 0,
        };
        let a3 = match &args[3].1 {
            Value::U8(x) => *x,
            _ => 0,
        };
        let a4 = match &args[4].1 {
            Value::U8(x) => *x,
            _ => 0,
        };
        let a5 = match &args[5].1 {
            Value::U8(x) => *x,
            _ => 0,
        };
        let a6 = match &args[6].1 {
            Value::U8(x) => *x,
            _ => 0,
        };
        let a7 = match &args[7].1 {
            Value::U8(x) => *x,
            _ => 0,
        };
        let a8 = match &args[8].1 {
            Value::U8(x) => *x,
            _ => 0,
        };
        let a9 = match &args[9].1 {
            Value::U8(x) => *x,
            _ => 0,
        };
        let a10 = match &args[10].1 {
            Value::U8(x) => *x,
            _ => 0,
        };
        Guid(a0, a1, a2, a3, a4, a5, a6, a7, a8, a9, a10)
    }
}


/// The lowercase hexadecimal digit of one value below sixteen.
pub open spec fn spec_hex_digit(v: nat) -> char {
    if v == 0 {
        '0'
    } else if v == 1 {
        '1'
    } else if v == 2 {
        '2'
    } else if v == 3 {
        '3'
    } else if v == 4 {
        '4'
    } else if v == 5 {
        '5'
    } else if v == 6 {
        '6'
    } else if v == 7 {
        '7'
    } else if v == 8 {
        '8'
    } else if v == 9 {
        '9'
    } else if v == 10 {
        'a'
    } else if v == 11 {
        'b'
    } else if v == 12 {
        'c'
    } else if v == 13 {
        'd'
    } else if v == 14 {
        'e'
    } else {
        'f'
    }
}

/// The fixed-width lowercase hexadecimal digits of `v`, `w` digits wide, most
/// significant first.
pub open spec fn spec_hex(v: nat, w: nat) -> Seq<char>
    decreases w,
{
    if w == 0 {
        Seq::empty()
    } else {
        spec_hex(v / 16, (w - 1) as nat).push(spec_hex_digit(v % 16))
    }
}

/// The hyphenated fixed-width rendering of an identifier: hexadecimal digit
/// groups of eight, four, four, two plus two, and six times two.
pub open spec fn spec_guid_string(g: Guid) -> Seq<char> {
    spec_hex(g.0 as nat, 8) + seq!['-'] + spec_hex(g.1 as nat, 4) + seq!['-'] + spec_hex(
        g.2 as nat,
        4,
    ) + seq!['-'] + spec_hex(g.3 as nat, 2) + spec_hex(g.4 as nat, 2) + seq!['-'] + spec_hex(
        g.5 as nat,
        2,
    ) + spec_hex(g.6 as nat, 2) + spec_hex(g.7 as nat, 2) + spec_hex(g.8 as nat, 2) + spec_hex(
        g.9 as nat,
        2,
    ) + spec_hex(g.10 as nat, 2)
}

fn push_hex(out: &mut String, v: u64, w: u64)
    requires
        w <= 16,
    ensures
        final(out)@ == old(out)@ + spec_hex(v as nat, w as nat),
    decreases w,
{
    if w == 0 {
        proof {
            assert(out@ =~= out@ + spec_hex(v as nat, 0));
        }
        return ;
    }
    push_hex(out, v / 16, w - 1);
    let d = (v % 16) as usize;
    proof {
        reveal_strlit("0123456789abcdef");
    }
    let table = "0123456789abcdef";
    let piece = table.substring_char(d, d + 1);
    proof {
        assert(piece@ =~= seq![spec_hex_digit((v % 16) as nat)]);
    }
    out.append(piece);
    proof {
        assert(out@ =~= old(out)@ + spec_hex(v as nat, w as nat));
    }
}

impl Guid {
    /// Renders the identifier as fixed-width hyphenated lowercase hexadecimal
    /// digit groups.
    pub fn format(&self) -> (res: String)
        ensures
            res@ == spec_guid_string(*self),
    {
        let mut out = String::new();
        push_hex(&mut out, self.0 as u64, 8);
        out.append("-");
        push_hex(&mut out, self.1 as u64, 4);
        out.append("-");
        push_hex(&mut out, self.2 as u64, 4);
        out.append("-");
        push_hex(&mut out, self.3 as u64, 2);
        push_hex(&mut out, self.4 as u64, 2);
        out.append("-");
        push_hex(&mut out, self.5 as u64, 2);
        push_hex(&mut out, self.6 as u64, 2);
        push_hex(&mut out, self.7 as u64, 2);
        push_hex(&mut out, self.8 as u64, 2);
        push_hex(&mut out, self.9 as u64, 2);
        push_hex(&mut out, self.10 as u64, 2);
        proof {
            reveal_strlit("-");
            assert(out@ =~= spec_guid_string(*self));
        }
        out
    }
}

/// Sixteen to the `w`th power: the count of `w`-digit renderings.
pub open spec fn pow16(w: nat) -> nat
    decreases w,
{
    if w == 0 {
        1
    } else {
        16 * pow16((w - 1) as nat)
    }
}

pub proof fn lemma_hex_len(v: nat, w: nat)
    ensures
        spec_hex(v, w).len() == w,
    decreases w,
{
    if w > 0 {
        lemma_hex_len(v / 16, (w - 1) as nat);
    }
}

/// Formatting is injective: two values that render alike in the same width
/// are equal, so the rendering loses nothing and parsing it back is well
/// defined.
pub proof fn lemma_hex_inj(v1: nat, v2: nat, w: nat)
    requires
        v1 < pow16(w),
        v2 < pow16(w),
        spec_hex(v1, w) == spec_hex(v2, w),
    ensures
        v1 == v2,
    decreases w,
{
    if w > 0 {
        lemma_hex_len(v1 / 16, (w - 1) as nat);
        lemma_hex_len(v2 / 16, (w - 1) as nat);
        assert(spec_hex(v1, w)[w - 1] == spec_hex_digit(v1 % 16));
        assert(spec_hex(v2, w)[w - 1] == spec_hex_digit(v2 % 16));
        assert(v1 % 16 == v2 % 16);
        assert(spec_hex(v1, w).drop_last() == spec_hex(v1 / 16, (w - 1) as nat));
        assert(spec_hex(v2, w).drop_last() == spec_hex(v2 / 16, (w - 1) as nat));
        assert(v1 / 16 < pow16((w - 1) as nat)) by (nonlinear_arith)
            requires
                v1 < 16 * pow16((w - 1) as nat),
        ;
        assert(v2 / 16 < pow16((w - 1) as nat)) by (nonlinear_arith)
            requires
                v2 < 16 * pow16((w - 1) as nat),
        ;
        lemma_hex_inj(v1 / 16, v2 / 16, (w - 1) as nat);
        assert(v1 == 16 * (v1 / 16) + v1 % 16);
        assert(v2 == 16 * (v2 / 16) + v2 % 16);
    }
}

} // verus!


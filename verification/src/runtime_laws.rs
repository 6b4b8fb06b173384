//! What the virtual machine's integer operations compute, and what the
//! bytecode verifier lets through.
use vstd::prelude::*;
use crate::runtime::{spec_int_arith, spec_verify_chunk, verify_from, ChunkV, OpV};

verus! {

/// Addition, subtraction and multiplication give the exact sum, difference
/// and product whenever it fits in an `i64`, and an error exactly when it
/// does not.
pub proof fn lemma_int_add_sub_mul(x: i64, y: i64)
    ensures
        spec_int_arith(OpV::Add, x, y) is Ok <==> i64::MIN <= x + y <= i64::MAX,
        spec_int_arith(OpV::Add, x, y) matches Ok(v) ==> v == x + y,
        spec_int_arith(OpV::Sub, x, y) is Ok <==> i64::MIN <= x - y <= i64::MAX,
        spec_int_arith(OpV::Sub, x, y) matches Ok(v) ==> v == x - y,
        spec_int_arith(OpV::Mul, x, y) is Ok <==> i64::MIN <= x * y <= i64::MAX,
        spec_int_arith(OpV::Mul, x, y) matches Ok(v) ==> v == x * y,
{
}

/// Division truncates toward zero and the remainder has the sign of the
/// dividend: for a divisor other than zero, and other than `-1` under
/// `i64::MIN`, the quotient `q` and remainder `r` satisfy `q * y + r == x`
/// with `|r| < |y|`, and `r` is zero or of the sign of `x`. A zero divisor
/// is an error for both; `i64::MIN` divided by `-1` overflows for both.
pub proof fn lemma_int_div_mod(x: i64, y: i64)
    ensures
        y == 0 ==> spec_int_arith(OpV::Div, x, y) is Err && spec_int_arith(OpV::Mod, x, y) is Err,
        x == i64::MIN && y == -1 ==> spec_int_arith(OpV::Div, x, y) is Err && spec_int_arith(OpV::Mod, x, y) is Err,
        y != 0 && !(x == i64::MIN && y == -1) ==> {
            &&& spec_int_arith(OpV::Div, x, y) is Ok
            &&& spec_int_arith(OpV::Mod, x, y) is Ok
            &&& {
                let q = spec_int_arith(OpV::Div, x, y)->Ok_0 as int;
                let r = spec_int_arith(OpV::Mod, x, y)->Ok_0 as int;
                &&& q * y + r == x
                &&& (if y > 0 { -y < r < y } else { y < r < -y })
                &&& (r == 0 || (r < 0) == (x < 0))
            }
        },
{
    if y != 0 && !(x == i64::MIN && y == -1) {
        let a = x as int;
        let d = y as int;
        if a > 0 && d > 0 {
            let q = a / d;
            let r = a % d;
            assert(q * d + r == a && 0 <= r < d && 0 <= q <= a) by (nonlinear_arith)
                requires
                    a > 0,
                    d > 0,
                    q == a / d,
                    r == a % d,
            ;
            assert(spec_int_arith(OpV::Div, x, y) == Ok::<i64, Seq<char>>(q as i64));
            assert(spec_int_arith(OpV::Mod, x, y) == Ok::<i64, Seq<char>>(r as i64));
            assert((q as i64) as int == q && (r as i64) as int == r);
        } else if a < 0 && d < 0 {
            let na = -a;
            let nd = -d;
            let q = na / nd;
            let r = -(na % nd);
            assert(q * d + r == a && -nd < r <= 0 && 0 <= q <= na && (nd >= 2 ==> 2 * q <= na)) by (nonlinear_arith)
                requires
                    na > 0,
                    nd > 0,
                    a == -na,
                    d == -nd,
                    q == na / nd,
                    r == -(na % nd),
            ;
            assert(spec_int_arith(OpV::Div, x, y) == Ok::<i64, Seq<char>>(q as i64));
            assert(spec_int_arith(OpV::Mod, x, y) == Ok::<i64, Seq<char>>(r as i64));
            assert((q as i64) as int == q && (r as i64) as int == r);
        } else if a < 0 {
            let na = -a;
            let q = -(na / d);
            let r = -(na % d);
            assert(q * d + r == a && -d < r <= 0 && -na <= q <= 0) by (nonlinear_arith)
                requires
                    na > 0,
                    d > 0,
                    a == -na,
                    q == -(na / d),
                    r == -(na % d),
            ;
            assert(spec_int_arith(OpV::Div, x, y) == Ok::<i64, Seq<char>>(q as i64));
            assert(spec_int_arith(OpV::Mod, x, y) == Ok::<i64, Seq<char>>(r as i64));
            assert((q as i64) as int == q && (r as i64) as int == r);
        } else if a > 0 {
            let nd = -d;
            let q = -(a / nd);
            let r = a % nd;
            assert(q * d + r == a && 0 <= r < nd && -a <= q <= 0) by (nonlinear_arith)
                requires
                    a > 0,
                    nd > 0,
                    d == -nd,
                    q == -(a / nd),
                    r == a % nd,
            ;
            assert(spec_int_arith(OpV::Div, x, y) == Ok::<i64, Seq<char>>(q as i64));
            assert(spec_int_arith(OpV::Mod, x, y) == Ok::<i64, Seq<char>>(r as i64));
            assert((q as i64) as int == q && (r as i64) as int == r);
        } else {
            assert(0 * d == 0) by (nonlinear_arith);
        }
        let qq = spec_int_arith(OpV::Div, x, y)->Ok_0 as int;
        let rr = spec_int_arith(OpV::Mod, x, y)->Ok_0 as int;
        assert(qq * y + rr == x);
        assert(if y > 0 { -y < rr < y } else { y < rr < -y });
        assert(rr == 0 || (rr < 0) == (x < 0));
    }
}


/// Whether the instruction at `i` stays inside its chunk: a constant index
/// inside the pool, a jump target at most the chunk's length.
pub open spec fn in_bounds_at(c: ChunkV, i: int) -> bool {
    &&& (c.code[i] matches OpV::PushConst(k) ==> k < c.consts.len())
    &&& (c.code[i] matches OpV::Jump(t) ==> t <= c.code.len())
    &&& (c.code[i] matches OpV::JumpIfFalse(t) ==> t <= c.code.len())
}

proof fn lemma_verify_from_bounds(c: ChunkV, i: nat)
    ensures
        verify_from(c, i) is Ok ==> forall|j: int| i <= j < c.code.len() ==> #[trigger] in_bounds_at(c, j),
    decreases c.code.len() - i,
{
    if i < c.code.len() {
        lemma_verify_from_bounds(c, i + 1);
        if verify_from(c, i) is Ok {
            assert forall|j: int| i <= j < c.code.len() implies #[trigger] in_bounds_at(c, j) by {
                if j > i {
                    assert(verify_from(c, i + 1) is Ok);
                }
            }
        }
    }
}

/// A chunk that the verifier accepts holds no constant index outside its
/// pool and no jump outside the chunk; and a chunk that starts with a jump
/// past its end is refused, with the message that names the position, the
/// target and the length.
pub proof fn lemma_verifier_bounds(c: ChunkV, t: usize)
    ensures
        spec_verify_chunk(c) is Ok ==> forall|j: int| 0 <= j < c.code.len() ==> #[trigger] in_bounds_at(c, j),
        c.code.len() > 0 && c.code[0] == OpV::Jump(t) && t > c.code.len() ==> spec_verify_chunk(c) == Err::<
            (),
            Seq<char>,
        >(
            "повреждённый байткод: переход на позиции "@ + crate::text::decimal(0) + " ведёт за пределы чанка (target="@
                + crate::text::decimal(t as nat) + ", длина чанка="@ + crate::text::decimal(c.code.len()) + ")"@,
        ),
{
    lemma_verify_from_bounds(c, 0);
}

} // verus!

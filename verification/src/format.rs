use vstd::prelude::*;

use crate::decode::int_view;

verus! {

/// ASCII code of the comma that separates rendered values.
pub const COMMA: u8 = 44;

/// ASCII code of the minus sign.
pub const MINUS: u8 = 45;

/// Decimal ASCII digits of `n`, most significant first.
pub open spec fn dec_digits(n: nat) -> Seq<u8>
    decreases n,
{
    if n < 10 {
        seq![(48 + n) as u8]
    } else {
        dec_digits(n / 10).push((48 + n % 10) as u8)
    }
}

/// Canonical base-10 ASCII rendering of `v`: a minus sign for negative
/// values, then the digits of its magnitude.
pub open spec fn int_text(v: int) -> Seq<u8> {
    if v < 0 {
        seq![MINUS] + dec_digits((-v) as nat)
    } else {
        dec_digits(v as nat)
    }
}

/// Comma-separated ASCII rendering of a value sequence, with no delimiter
/// after the last value; an empty sequence renders as nothing.
pub open spec fn csv_text(vals: Seq<int>) -> Seq<u8>
    decreases vals.len(),
{
    if vals.len() == 0 {
        Seq::<u8>::empty()
    } else if vals.len() == 1 {
        int_text(vals[0])
    } else {
        csv_text(vals.drop_last()) + seq![COMMA] + int_text(vals.last())
    }
}

/// Rendering is a pure function of the value sequence: two renderings of the
/// same decoded sequence are identical.
pub proof fn lemma_formatter_deterministic(vals: Seq<int>, r1: Seq<u8>, r2: Seq<u8>)
    requires
        r1 == csv_text(vals),
        r2 == csv_text(vals),
    ensures
        r1 == r2,
{
}

fn push_digits(n: u32, out: &mut Vec<u8>)
    ensures
        final(out)@ == old(out)@ + dec_digits(n as nat),
    decreases n,
{
    let ghost prefix = out@;
    if n >= 10 {
        push_digits(n / 10, out);
    }
    out.push(48 + (n % 10) as u8);
    proof {
        if n < 10 {
            assert(out@ =~= prefix + dec_digits(n as nat));
        } else {
            assert(out@ =~= prefix + dec_digits((n / 10) as nat).push((48 + n % 10) as u8));
        }
    }
}

/// Appends the canonical base-10 text of `v` to `out`.
pub fn push_value_text(v: i32, out: &mut Vec<u8>)
    requires
        v != i32::MIN,
    ensures
        final(out)@ == old(out)@ + int_text(v as int),
{
    let ghost prefix = out@;
    if v < 0 {
        out.push(MINUS);
        let m: u32 = (-v) as u32;
        push_digits(m, out);
        proof {
            assert(out@ =~= prefix + int_text(v as int));
        }
    } else {
        push_digits(v as u32, out);
    }
}

/// Renders one packet's decoded values as comma-separated text, with no
/// trailing comma.
pub fn format_values(vals: &Vec<i32>) -> (r: Vec<u8>)
    requires
        forall|i: int| 0 <= i < vals@.len() ==> #[trigger] vals@[i] != i32::MIN,
    ensures
        r@ == csv_text(int_view(vals@)),
{
    let mut out: Vec<u8> = Vec::new();
    let mut i: usize = 0;
    proof {
        assert(int_view(vals@).take(0) =~= Seq::<int>::empty());
    }
    while i < vals.len()
        invariant
            i <= vals@.len(),
            forall|k: int| 0 <= k < vals@.len() ==> #[trigger] vals@[k] != i32::MIN,
            out@ == csv_text(int_view(vals@).take(i as int)),
        decreases vals@.len() - i,
    {
        let ghost done = int_view(vals@).take(i as int);
        let ghost next = int_view(vals@).take(i as int + 1);
        proof {
            assert(next.drop_last() =~= done);
            assert(next.last() == vals@[i as int] as int);
        }
        if i > 0 {
            out.push(COMMA);
        }
        push_value_text(vals[i], &mut out);
        proof {
            if i == 0 {
                assert(out@ =~= csv_text(next));
            } else {
                assert(out@ =~= csv_text(done) + seq![COMMA] + int_text(next.last()));
                assert(out@ =~= csv_text(next));
            }
        }
        i += 1;
    }
    proof {
        assert(int_view(vals@).take(vals@.len() as int) =~= int_view(vals@));
    }
    out
}

} // verus!

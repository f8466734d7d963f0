//! What instants in text are for: how a zone and a fraction move them.
#[allow(unused_imports)]
use vstd::prelude::*;

#[allow(unused_imports)]
use crate::sql::datetime::{number, rfc3339};

verus! {

/// The zone `+hh:mm`, or `-hh:mm`.
pub open spec fn zone_text(east: bool, a: u8, b: u8, c: u8, d: u8) -> Seq<u8> {
    seq![if east { 0x2Bu8 } else { 0x2Du8 }, a, b, 0x3Au8, c, d]
}

/// A digit of a decimal number.
pub open spec fn decimal(b: u8) -> bool {
    0x30 <= b <= 0x39
}

/// An instant that is written with a zone east of Greenwich is earlier than the same digits at
/// Greenwich, by the hours and minutes of the zone; one to the west is later.
pub proof fn zones_shift_instants(t: Seq<u8>, east: bool, a: u8, b: u8, c: u8, d: u8)
    requires
        t.len() == 19,
        decimal(a),
        decimal(b),
        decimal(c),
        decimal(d),
        10 * (a - 0x30) + (b - 0x30) <= 23,
        10 * (c - 0x30) + (d - 0x30) <= 59,
        rfc3339(t + seq![0x5Au8]) is Some,
    ensures
        ({
            let minutes = (10 * (a - 0x30) + (b - 0x30)) * 60 + 10 * (c - 0x30) + (d - 0x30);
            rfc3339(t + zone_text(east, a, b, c, d)) == Some(
                if east {
                    rfc3339(t + seq![0x5Au8])->0 - minutes * 60_000
                } else {
                    rfc3339(t + seq![0x5Au8])->0 + minutes * 60_000
                },
            )
        }),
{
    let x = t + seq![0x5Au8];
    let z = zone_text(east, a, b, c, d);
    let y = t + z;
    assert(forall|i: int| 0 <= i < 19 ==> x[i] == y[i]);
    assert(x.subrange(0, 4) =~= y.subrange(0, 4));
    assert(x.subrange(5, 7) =~= y.subrange(5, 7));
    assert(x.subrange(8, 10) =~= y.subrange(8, 10));
    assert(x.subrange(11, 13) =~= y.subrange(11, 13));
    assert(x.subrange(14, 16) =~= y.subrange(14, 16));
    assert(x.subrange(17, 19) =~= y.subrange(17, 19));
    assert(x[19] == 0x5A && y[19] == z[0]);
    let h = y.subrange(20, 22);
    let m = y.subrange(23, 25);
    assert(h =~= seq![a, b]);
    assert(m =~= seq![c, d]);
    reveal_with_fuel(number, 3);
    assert(seq![a, b].drop_last() =~= seq![a]);
    assert(seq![c, d].drop_last() =~= seq![c]);
    assert(seq![a].drop_last() =~= Seq::<u8>::empty());
    assert(seq![c].drop_last() =~= Seq::<u8>::empty());
    assert(number(h) == 10 * (a - 0x30) + (b - 0x30));
    assert(number(m) == 10 * (c - 0x30) + (d - 0x30));
    assert(y[22] == 0x3A);
}

} // verus!

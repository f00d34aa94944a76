use vstd::prelude::*;

verus! {

/// The ASCII decimal digits of `v`, most significant first, without leading zeros.
pub open spec fn decimal(v: nat) -> Seq<u8>
    decreases v,
{
    if v < 10 {
        seq![(48 + v) as u8]
    } else {
        decimal(v / 10).push((48 + v % 10) as u8)
    }
}

/// Each value in decimal, each followed by one space.
pub open spec fn spaced(values: Seq<u16>) -> Seq<u8>
    decreases values.len(),
{
    if values.len() == 0 {
        Seq::empty()
    } else {
        spaced(values.drop_last()) + decimal(values.last() as nat) + seq![32u8]
    }
}

/// Dumps raw captured sample chunks as text, one line per chunk.
pub struct Printer {}

fn push_decimal(out: &mut Vec<u8>, v: u16)
    ensures
        final(out)@ == old(out)@ + decimal(v as nat),
    decreases v,
{
    if v >= 10 {
        push_decimal(out, v / 10);
    }
    out.push(48 + (v % 10) as u8);
    assert(final(out)@ =~= old(out)@ + decimal(v as nat));
}

impl Printer {
    pub fn new() -> (r: Self) {
        Printer {}
    }

    /// The line that shows one chunk: every sample in decimal followed by a
    /// space, then a line feed.
    pub fn line(&self, samples: &[u16]) -> (r: Vec<u8>)
        ensures
            r@ == spaced(samples@).push(10u8),
    {
        let mut out: Vec<u8> = Vec::new();
        let mut i: usize = 0;
        while i < samples.len()
            invariant
                i <= samples@.len(),
                out@ == spaced(samples@.subrange(0, i as int)),
            decreases samples@.len() - i,
        {
            push_decimal(&mut out, samples[i]);
            out.push(32u8);
            i = i + 1;
            assert(samples@.subrange(0, i as int).drop_last() =~= samples@.subrange(0, i - 1));
            assert(out@ =~= spaced(samples@.subrange(0, i as int)));
        }
        assert(samples@.subrange(0, i as int) =~= samples@);
        out.push(10u8);
        out
    }
}

} // verus!

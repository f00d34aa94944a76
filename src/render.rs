use vstd::prelude::*;

verus! {

/// A line segment in screen coordinates; `y` grows downwards.
#[derive(Debug, Clone, Copy, PartialEq, Eq, Structural)]
pub struct Segment {
    pub x1: i64,
    pub y1: i64,
    pub x2: i64,
    pub y2: i64,
}

/// Horizontal position of bin `n` when bins `0..=last` span `width` pixels.
pub open spec fn bin_x(n: nat, last: nat, width: nat) -> int {
    (n * width / last) as int
}

/// The segment from bin `n` to bin `n + 1`; a level of `v` pixels is drawn
/// `v` pixels above the bottom edge at `height`.
pub open spec fn segment_between(levels: Seq<u32>, width: nat, height: nat, n: int) -> Segment {
    let last = (levels.len() - 1) as nat;
    Segment {
        x1: bin_x(n as nat, last, width) as i64,
        y1: (height - levels[n]) as i64,
        x2: bin_x((n + 1) as nat, last, width) as i64,
        y2: (height - levels[n + 1]) as i64,
    }
}

/// A segment is drawn unless both of its ends lie on the bottom edge.
pub open spec fn visible(height: nat) -> spec_fn(Segment) -> bool {
    |s: Segment| s.y1 < height || s.y2 < height
}

/// The polyline of a column: the segments between consecutive bins, left to
/// right, leaving out those with both ends at level zero.
pub open spec fn polyline(levels: Seq<u32>, width: nat, height: nat) -> Seq<Segment> {
    if levels.len() < 2 {
        Seq::empty()
    } else {
        Seq::new(
            (levels.len() - 1) as nat,
            |n: int| segment_between(levels, width, height, n),
        ).filter(visible(height))
    }
}

fn bin_x_exec(n: usize, last: usize, width: u32) -> (r: i64)
    requires
        1 <= last,
        n <= last,
    ensures
        r == bin_x(n as nat, last as nat, width as nat),
        0 <= r <= width,
{
    assert(n * width < 0x1_0000_0000_0000_0000_0000_0000) by (nonlinear_arith)
        requires
            n < 0x1_0000_0000_0000_0000,
            width < 0x1_0000_0000,
    ;
    let p: u128 = (n as u128) * (width as u128);
    let q: u128 = p / (last as u128);
    proof {
        let a: int = n as int;
        let l: int = last as int;
        let w: int = width as int;
        assert(a * w <= l * w) by (nonlinear_arith)
            requires
                a <= l,
                0 <= w,
        ;
        vstd::arithmetic::div_mod::lemma_div_is_ordered(a * w, l * w, l);
        assert(l * w == w * l) by (nonlinear_arith);
        vstd::arithmetic::div_mod::lemma_div_by_multiple(w, l);
        assert(a * w >= 0) by (nonlinear_arith)
            requires
                a >= 0,
                w >= 0,
        ;
        vstd::arithmetic::div_mod::lemma_div_pos_is_pos(a * w, l);
    }
    q as i64
}

/// Maps the bin levels of one spectral column (in pixels above the bottom
/// edge) to the line segments that draw it across `width` pixels.
pub fn column_polyline(levels: &Vec<u32>, width: u32, height: u32) -> (r: Vec<Segment>)
    ensures
        r@ == polyline(levels@, width as nat, height as nat),
{
    let mut out: Vec<Segment> = Vec::new();
    if levels.len() < 2 {
        return out;
    }
    let last: usize = levels.len() - 1;
    let ghost all = Seq::new(
        last as nat,
        |n: int| segment_between(levels@, width as nat, height as nat, n),
    );
    let mut n: usize = 0;
    while n < last
        invariant
            last == levels@.len() - 1,
            n <= last,
            all == Seq::new(
                last as nat,
                |n: int| segment_between(levels@, width as nat, height as nat, n),
            ),
            out@ == all.subrange(0, n as int).filter(visible(height as nat)),
        decreases last - n,
    {
        let seg = Segment {
            x1: bin_x_exec(n, last, width),
            y1: height as i64 - levels[n] as i64,
            x2: bin_x_exec(n + 1, last, width),
            y2: height as i64 - levels[n + 1] as i64,
        };
        assert(seg == all[n as int]);
        proof {
            let pre = all.subrange(0, n + 1);
            assert(pre.drop_last() =~= all.subrange(0, n as int));
            assert(pre.last() == seg);
            reveal(Seq::filter);
        }
        if levels[n] > 0 || levels[n + 1] > 0 {
            out.push(seg);
        }
        n = n + 1;
    }
    assert(all.subrange(0, last as int) =~= all);
    out
}

} // verus!

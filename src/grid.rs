use vstd::prelude::*;

verus! {

/// Number of whole steps of `delta` needed to cover `span`, rounded up.
pub open spec fn steps_to_cover(span: int, delta: int) -> int {
    (span + delta - 1) / delta
}

/// The levels of a grid from `min` to `max` every `delta`: `min`, then
/// `min + i * delta` for each `i` with `0 < i < steps_to_cover(max - min, delta)`,
/// then `max`.
pub open spec fn grid_lines(delta: int, min: int, max: int) -> Seq<int> {
    let inner = if max > min {
        Seq::new((steps_to_cover(max - min, delta) - 1) as nat, |i: int| min + (i + 1) * delta)
    } else {
        Seq::empty()
    };
    seq![min] + inner + seq![max]
}

/// Price levels of a threshold strategy, in fixed-point units.
pub struct Grid {
    pub min: u64,
    pub max: u64,
    /// Halfway between `min` and `max`, rounded toward `min`.
    pub midpoint: u64,
    pub lines: Vec<u64>,
}

impl Grid {
    /// A grid spanning `min` to `max` with a level every `delta`.
    pub fn new(delta: u64, min: u64, max: u64) -> (r: Grid)
        requires
            delta > 0,
        ensures
            r.min == min,
            r.max == max,
            r.midpoint == if max >= min {
                min + (max - min) / 2
            } else {
                min - (min - max) / 2
            },
            r.lines@.map_values(|x: u64| x as int) == grid_lines(delta as int, min as int, max as int),
    {
        let span: u64 = if max > min {
            max - min
        } else {
            0
        };
        let steps: u128 = (span as u128 + delta as u128 - 1) / (delta as u128);
        let mut lines: Vec<u64> = Vec::new();
        lines.push(min);
        let mut i: u64 = 1;
        while (i as u128) < steps
            invariant
                1 <= i,
                i <= steps || i == 1,
                steps == steps_to_cover(span as int, delta as int),
                span == if max > min {
                    max - min
                } else {
                    0
                },
                delta > 0,
                lines.len() == i,
                lines[0] == min,
                forall|j: int| 1 <= j < i ==> lines[j] == min + j * delta,
            decreases steps - i,
        {
            proof {
                let x = span + delta - 1;
                vstd::arithmetic::div_mod::lemma_fundamental_div_mod(x as int, delta as int);
                assert(i * delta < span) by (nonlinear_arith)
                    requires
                        i < steps,
                        steps == x / (delta as int),
                        x == (delta as int) * (x / (delta as int)) + x % (delta as int),
                        0 <= x % (delta as int),
                        x == span + delta - 1,
                        delta > 0,
                ;
                assert(i <= i * delta) by (nonlinear_arith)
                    requires
                        delta >= 1,
                        i >= 1,
                ;
            }
            lines.push(min + i * delta);
            i = i + 1;
        }
        lines.push(max);
        let midpoint: u64 = if max >= min {
            min + (max - min) / 2
        } else {
            min - (min - max) / 2
        };
        let r = Grid { min, max, midpoint, lines };
        proof {
            let expect = grid_lines(delta as int, min as int, max as int);
            let got = r.lines@.map_values(|x: u64| x as int);
            if max > min {
                assert(steps >= 1) by (nonlinear_arith)
                    requires
                        span > 0,
                        delta > 0,
                        steps == (span + delta - 1) / (delta as int),
                ;
            } else {
                assert(steps == 0) by (nonlinear_arith)
                    requires
                        span == 0,
                        delta > 0,
                        steps == (span + delta - 1) / (delta as int),
                ;
            }
            assert(got.len() == expect.len());
            assert forall|j: int| 0 <= j < got.len() implies got[j] == expect[j] by {
                if 0 < j < got.len() - 1 {
                    assert(got[j] == min + j * delta);
                }
            }
            assert(got =~= expect);
        }
        r
    }

    /// Where `num` lies relative to the midpoint: -1 below, 0 on it, 1 above.
    pub fn relative_to_midpoint(&self, num: u64) -> (r: i32)
        ensures
            num < self.midpoint ==> r == -1,
            num == self.midpoint ==> r == 0,
            num > self.midpoint ==> r == 1,
    {
        if num < self.midpoint {
            -1
        } else if num == self.midpoint {
            0
        } else {
            1
        }
    }
}

} // verus!

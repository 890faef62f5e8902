//! Paging of an activity listing as a table view requests it.
use vstd::prelude::*;
use vstd::utf8::*;

verus! {

/// A request for one page of a sorted listing: `start` rows are skipped,
/// at most `length` are returned, `column` names the sort key and `dir`
/// is `asc` for ascending order.
pub struct DataRequest {
    pub draw: usize,
    pub start: usize,
    pub length: usize,
    pub column: usize,
    pub dir: String,
}

/// The bytes of the word `asc`.
pub open spec fn asc_bytes() -> Seq<u8> {
    seq![0x61u8, 0x73u8, 0x63u8]
}

pub open spec fn min(a: int, b: int) -> int {
    if a < b { a } else { b }
}

/// The rows of the page that `start` and `length` select from `rows`.
pub open spec fn page_of<T>(rows: Seq<T>, start: int, length: int) -> Seq<T> {
    let lo = min(start, rows.len() as int);
    let hi = min(start + length, rows.len() as int);
    rows.subrange(lo, hi)
}

impl DataRequest {
    /// Whether the page is asked for in ascending order.
    pub fn is_ascending(&self) -> (r: bool)
        ensures
            r == (encode_utf8(self.dir@) == asc_bytes()),
    {
        let b = self.dir.as_str().as_bytes();
        let r = b.len() == 3 && b[0] == 0x61u8 && b[1] == 0x73u8 && b[2] == 0x63u8;
        proof {
            if r {
                assert(b@ =~= asc_bytes());
            }
        }
        r
    }

    /// The page of `rows`: the rows are reversed first when `dir` is `asc`,
    /// then `start` rows are skipped and at most `length` kept.
    pub fn select_page<T>(&self, rows: Vec<T>) -> (r: Vec<T>)
        ensures
            r@ == page_of(
                if encode_utf8(self.dir@) == asc_bytes() { rows@.reverse() } else { rows@ },
                self.start as int,
                self.length as int,
            ),
    {
        let asc = self.is_ascending();
        let ordered = if asc { reversed(rows) } else { rows };
        let ghost o = ordered@;
        let n = ordered.len();
        let lo = if self.start < n { self.start } else { n };
        let hi = if self.length <= n - lo { lo + self.length } else { n };
        let mut out: Vec<T> = Vec::new();
        let mut rest = ordered;
        let mut tail: Vec<T> = Vec::new();
        // drop the rows past the page, then move the page out in order
        while rest.len() > hi
            invariant
                hi <= rest@.len() <= n,
                n == o.len(),
                rest@ == o.subrange(0, rest@.len() as int),
            decreases rest@.len(),
        {
            rest.pop();
            proof {
                assert(rest@ =~= o.subrange(0, rest@.len() as int));
            }
        }
        while rest.len() > lo
            invariant
                lo <= rest@.len() <= hi,
                hi <= n,
                n == o.len(),
                rest@ == o.subrange(0, rest@.len() as int),
                tail@.len() == hi - rest@.len(),
                forall|j: int| 0 <= j < tail@.len() ==> #[trigger] tail@[j] == o[hi - 1 - j],
            decreases rest@.len(),
        {
            let x = rest.pop().unwrap();
            proof {
                assert(rest@ =~= o.subrange(0, rest@.len() as int));
            }
            tail.push(x);
        }
        let m = tail.len();
        while tail.len() > 0
            invariant
                m == hi - lo,
                tail@.len() + out@.len() == m,
                forall|j: int| 0 <= j < tail@.len() ==> #[trigger] tail@[j] == o[hi - 1 - j],
                forall|j: int| 0 <= j < out@.len() ==> #[trigger] out@[j] == o[lo + j],
            decreases tail@.len(),
        {
            let ghost before = tail@;
            let x = tail.pop().unwrap();
            proof {
                assert(x == before[before.len() - 1]);
                assert(tail@ =~= before.drop_last());
            }
            out.push(x);
        }
        proof {
            assert(out@ =~= o.subrange(lo as int, hi as int));
        }
        out
    }
}

/// The rows in reverse order.
pub fn reversed<T>(rows: Vec<T>) -> (r: Vec<T>)
    ensures
        r@ == rows@.reverse(),
{
    let ghost o = rows@;
    let mut rest = rows;
    let mut out: Vec<T> = Vec::new();
    while rest.len() > 0
        invariant
            rest@ == o.subrange(0, rest@.len() as int),
            rest@.len() + out@.len() == o.len(),
            forall|j: int| 0 <= j < out@.len() ==> #[trigger] out@[j] == o[o.len() - 1 - j],
        decreases rest@.len(),
    {
        let x = rest.pop().unwrap();
        proof {
            assert(rest@ =~= o.subrange(0, rest@.len() as int));
        }
        out.push(x);
    }
    proof {
        assert(out@ =~= o.reverse());
    }
    out
}

} // verus!

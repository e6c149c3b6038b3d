//! What the download screen shows: a count of finished episodes and one row
//! per episode, unfinished ones first.
use vstd::prelude::*;
use crate::text::{decimal, push_decimal, push_str};

verus! {

/// The state of one episode's progress bar.
pub struct BarState {
    pub message: String,
    pub position: u64,
    pub length: Option<u64>,
    pub finished: bool,
}

pub open spec fn count_finished(bars: Seq<BarState>) -> nat
    decreases bars.len(),
{
    if bars.len() == 0 {
        0
    } else {
        count_finished(bars.drop_last()) + if bars.last().finished {
            1nat
        } else {
            0nat
        }
    }
}

/// `ani-rust  /  Descargas    <done>/<total> finalizados`.
pub open spec fn header_text(done: nat, total: nat) -> Seq<char> {
    "ani-rust  /  Descargas    "@ + decimal(done) + "/"@ + decimal(total) + " finalizados"@
}

/// `<message>   <position>/<length> segmentos`, an unknown length shown as 0.
pub open spec fn row_text(b: BarState) -> Seq<char> {
    b.message@ + "   "@ + decimal(b.position as nat) + "/"@ + decimal(
        match b.length {
            Some(l) => l as nat,
            None => 0,
        },
    ) + " segmentos"@
}

pub open spec fn is_unfinished(b: BarState) -> bool {
    !b.finished
}

pub open spec fn is_finished(b: BarState) -> bool {
    b.finished
}

/// The bars in display order: unfinished ones, then finished ones, each group
/// in its own order.
pub open spec fn display_order(bars: Seq<BarState>) -> Seq<BarState> {
    bars.filter(|b: BarState| is_unfinished(b)) + bars.filter(|b: BarState| is_finished(b))
}

/// The header of the download screen.
pub fn header(bars: &Vec<BarState>) -> (r: String)
    ensures
        r@ == header_text(count_finished(bars@), bars@.len()),
{
    let mut done: u64 = 0;
    let mut i: usize = 0;
    while i < bars.len()
        invariant
            i <= bars@.len(),
            done == count_finished(bars@.subrange(0, i as int)),
            done <= i,
        decreases bars@.len() - i,
    {
        assert(bars@.subrange(0, i + 1).drop_last() == bars@.subrange(0, i as int));
        if bars[i].finished {
            done = done + 1;
        }
        i = i + 1;
    }
    assert(bars@.subrange(0, bars@.len() as int) == bars@);
    let mut r = String::new();
    push_str(&mut r, "ani-rust  /  Descargas    ");
    push_decimal(&mut r, done);
    push_str(&mut r, "/");
    push_decimal(&mut r, bars.len() as u64);
    push_str(&mut r, " finalizados");
    r
}

fn row(b: &BarState) -> (r: String)
    ensures
        r@ == row_text(*b),
{
    let mut r = b.message.clone();
    push_str(&mut r, "   ");
    push_decimal(&mut r, b.position);
    push_str(&mut r, "/");
    push_decimal(
        &mut r,
        match b.length {
            Some(l) => l,
            None => 0,
        },
    );
    push_str(&mut r, " segmentos");
    r
}

/// Appends the rows of the bars that are finished (or not) to `r`.
fn push_rows(r: &mut Vec<String>, bars: &Vec<BarState>, finished: bool)
    ensures
        final(r)@.len() == old(r)@.len() + bars@.filter(
            if finished {
                |b: BarState| is_finished(b)
            } else {
                |b: BarState| is_unfinished(b)
            },
        ).len(),
        forall|k: int| 0 <= k < old(r)@.len() ==> #[trigger] final(r)@[k] == old(r)@[k],
        forall|k: int|
            old(r)@.len() <= k < final(r)@.len() ==> (#[trigger] final(r)@[k])@ == row_text(
                bars@.filter(
                    if finished {
                        |b: BarState| is_finished(b)
                    } else {
                        |b: BarState| is_unfinished(b)
                    },
                )[k - old(r)@.len()],
            ),
{
    let ghost pred = if finished {
        |b: BarState| is_finished(b)
    } else {
        |b: BarState| is_unfinished(b)
    };
    let ghost base = r@.len();
    let ghost start = r@;
    let mut i: usize = 0;
    while i < bars.len()
        invariant
            i <= bars@.len(),
            base == start.len(),
            pred == (if finished {
                |b: BarState| is_finished(b)
            } else {
                |b: BarState| is_unfinished(b)
            }),
            r@.len() == base + bars@.subrange(0, i as int).filter(pred).len(),
            forall|k: int| 0 <= k < base ==> #[trigger] r@[k] == start[k],
            forall|k: int|
                base <= k < r@.len() ==> (#[trigger] r@[k])@ == row_text(
                    bars@.subrange(0, i as int).filter(pred)[k - base],
                ),
        decreases bars@.len() - i,
    {
        let ghost pre = bars@.subrange(0, i as int);
        assert(bars@.subrange(0, i + 1) == pre.push(bars@[i as int]));
        proof {
            pre.lemma_filter_push(bars@[i as int], pred);
        }
        assert(pred(bars@[i as int]) == (bars@[i as int].finished == finished));
        if bars[i].finished == finished {
            let ghost before = r@;
            r.push(row(&bars[i]));
            assert forall|k: int| base <= k < r@.len() implies (#[trigger] r@[k])@ == row_text(
                bars@.subrange(0, i + 1).filter(pred)[k - base],
            ) by {
                if k < before.len() {
                    assert(r@[k] == before[k]);
                }
            }
            assert forall|k: int| 0 <= k < base implies #[trigger] r@[k] == start[k] by {
                assert(r@[k] == before[k]);
            }
        }
        i = i + 1;
    }
    assert(bars@.subrange(0, bars@.len() as int) == bars@);
}

/// The rows of the download screen, in display order.
pub fn rows(bars: &Vec<BarState>) -> (r: Vec<String>)
    ensures
        r@.len() == display_order(bars@).len(),
        forall|i: int| 0 <= i < r@.len() ==> (#[trigger] r@[i])@ == row_text(display_order(bars@)[i]),
{
    let mut r: Vec<String> = Vec::new();
    push_rows(&mut r, bars, false);
    push_rows(&mut r, bars, true);
    proof {
        let u = bars@.filter(|b: BarState| is_unfinished(b));
        let f = bars@.filter(|b: BarState| is_finished(b));
        let d = display_order(bars@);
        assert(d == u + f);
        assert forall|k: int| 0 <= k < r@.len() implies (#[trigger] r@[k])@ == row_text(d[k]) by {
            if k < u.len() {
                assert(d[k] == u[k]);
            } else {
                assert(d[k] == f[k - u.len()]);
            }
        }
    }
    r
}

} // verus!

//! The rolling window of samples behind each sparkline graph, and the
//! premultiplied colour used to fade it in.

use vstd::prelude::*;
use std::collections::VecDeque;

verus! {

/// A fixed-width window of the most recent samples, oldest first.
pub struct Sparkline<T> {
    values: VecDeque<T>,
}

impl<T> View for Sparkline<T> {
    type V = Seq<T>;

    closed spec fn view(&self) -> Seq<T> {
        self.values@
    }
}

/// The window after one sample `v` arrives: the oldest sample (if any) drops
/// out and `v` is appended.
pub open spec fn pushed<T>(w: Seq<T>, v: T) -> Seq<T> {
    if w.len() == 0 {
        seq![v]
    } else {
        w.drop_first().push(v)
    }
}

/// The window after the samples `xs` arrive one by one.
pub open spec fn pushed_all<T>(w: Seq<T>, xs: Seq<T>) -> Seq<T>
    decreases xs.len(),
{
    if xs.len() == 0 {
        w
    } else {
        pushed(pushed_all(w, xs.drop_last()), xs.last())
    }
}

impl<T: Copy> Sparkline<T> {
    /// A window of `capacity` samples, pre-filled with `fill` so the graph spans
    /// the full width from the first frame.
    pub fn new(capacity: usize, fill: T) -> (s: Self)
        ensures
            s@ == Seq::new(capacity as nat, |_i: int| fill),
    {
        let mut values: VecDeque<T> = VecDeque::with_capacity(capacity);
        let mut i: usize = 0;
        while i < capacity
            invariant
                i <= capacity,
                values@ == Seq::new(i as nat, |_i: int| fill),
            decreases capacity - i,
        {
            values.push_back(fill);
            i += 1;
            assert(values@ =~= Seq::new(i as nat, |_i: int| fill));
        }
        Sparkline { values }
    }

    /// Records a new sample: the oldest one drops out.
    pub fn push(&mut self, value: T)
        ensures
            final(self)@ == pushed(old(self)@, value),
    {
        let _ = self.values.pop_front();
        self.values.push_back(value);
        proof {
            if old(self)@.len() == 0 {
                assert(self@ =~= seq![value]);
            } else {
                assert(self@ =~= old(self)@.drop_first().push(value));
            }
        }
    }

    /// The samples, oldest first.
    pub fn values(&self) -> (r: &VecDeque<T>)
        ensures
            r@ == self@,
    {
        &self.values
    }
}

/// A window that holds at least one sample keeps its width as samples arrive,
/// and then always holds the most recent samples: the last `w.len()` of the
/// old window followed by everything pushed since.
pub proof fn lemma_window_keeps_latest<T>(w: Seq<T>, xs: Seq<T>)
    requires
        w.len() >= 1,
    ensures
        pushed_all(w, xs).len() == w.len(),
        pushed_all(w, xs) == (w + xs).skip(xs.len() as int),
    decreases xs.len(),
{
    if xs.len() > 0 {
        let ys = xs.drop_last();
        lemma_window_keeps_latest(w, ys);
        let prev = pushed_all(w, ys);
        assert(prev == (w + ys).skip(ys.len() as int));
        assert(prev.drop_first().push(xs.last()) =~= (w + xs).skip(xs.len() as int));
    }
}

/// A colour channel scaled by the alpha `a` (`c * a / 255`), for a
/// premultiplied-alpha colour.
pub open spec fn premul(c: u8, a: u8) -> u8 {
    ((c as nat * a as nat) / 255) as u8
}

/// The premultiplied `(r, g, b, a)` of the colour `rgb` at alpha `a`.
pub fn premul_color(rgb: (u8, u8, u8), a: u8) -> (r: (u8, u8, u8, u8))
    ensures
        r == (premul(rgb.0, a), premul(rgb.1, a), premul(rgb.2, a), a),
{
    let af = a as u32;
    assert(rgb.0 as u32 * af <= 255 * 255) by (nonlinear_arith)
        requires
            rgb.0 <= 255,
            af <= 255,
    ;
    assert(rgb.1 as u32 * af <= 255 * 255) by (nonlinear_arith)
        requires
            rgb.1 <= 255,
            af <= 255,
    ;
    assert(rgb.2 as u32 * af <= 255 * 255) by (nonlinear_arith)
        requires
            rgb.2 <= 255,
            af <= 255,
    ;
    (
        (rgb.0 as u32 * af / 255) as u8,
        (rgb.1 as u32 * af / 255) as u8,
        (rgb.2 as u32 * af / 255) as u8,
        a,
    )
}

} // verus!

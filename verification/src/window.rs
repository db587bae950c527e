//! Fixed-length sliding windows of samples, oldest first, and rows of such windows
//! (one per core, GPU or network interface).

use std::collections::VecDeque;
use vstd::prelude::*;

verus! {

/// `n` copies of `fill`.
pub open spec fn filled<T>(n: nat, fill: T) -> Seq<T> {
    Seq::new(n, |i: int| fill)
}

/// The window after one new sample: the oldest sample leaves and the new one is
/// appended at the back. An empty window just receives the sample.
pub open spec fn slid<T>(w: Seq<T>, sample: T) -> Seq<T> {
    if w.len() == 0 {
        seq![sample]
    } else {
        w.drop_first().push(sample)
    }
}

/// A sequence cut or padded at its back to length `n`: cutting keeps the first `n`
/// items, padding appends copies of `fill`.
pub open spec fn resized<T>(w: Seq<T>, n: nat, fill: T) -> Seq<T> {
    if n <= w.len() {
        w.take(n as int)
    } else {
        w + filled((n - w.len()) as nat, fill)
    }
}

/// The contents of a row of windows.
pub open spec fn windows_view<T>(ws: Seq<VecDeque<T>>) -> Seq<Seq<T>> {
    Seq::new(ws.len(), |i: int| ws[i]@)
}

/// Every window of a row holds exactly `n` samples.
pub open spec fn all_of_len<T>(ws: Seq<Seq<T>>, n: nat) -> bool {
    forall|i: int| 0 <= i < ws.len() ==> (#[trigger] ws[i]).len() == n
}

/// Sliding a non-empty window keeps its length, moves every sample one place towards
/// the front (the oldest one leaving) and puts the new sample last.
pub proof fn lemma_slid_shifts<T>(w: Seq<T>, sample: T)
    requires
        w.len() > 0,
    ensures
        slid(w, sample).len() == w.len(),
        slid(w, sample).last() == sample,
        forall|i: int| 0 <= i < w.len() - 1 ==> #[trigger] slid(w, sample)[i] == w[i + 1],
{
}

/// Cutting or padding gives exactly `n` items and keeps the items in front.
pub proof fn lemma_resized_keeps_front<T>(w: Seq<T>, n: nat, fill: T)
    ensures
        resized(w, n, fill).len() == n,
        forall|i: int| 0 <= i < n && i < w.len() ==> #[trigger] resized(w, n, fill)[i] == w[i],
        forall|i: int| w.len() <= i < n ==> #[trigger] resized(w, n, fill)[i] == fill,
{
}

/// A window of `n` copies of `fill`.
pub fn filled_window<T: Copy>(n: usize, fill: T) -> (w: VecDeque<T>)
    ensures
        w@ == filled(n as nat, fill),
{
    let mut w: VecDeque<T> = VecDeque::new();
    let mut k: usize = 0;
    while k < n
        invariant
            k <= n,
            w@ == filled(k as nat, fill),
        decreases n - k,
    {
        w.push_back(fill);
        k = k + 1;
        assert(w@ =~= filled(k as nat, fill));
    }
    w
}

/// Drops the oldest sample (if any) and appends `sample`.
pub fn slide<T>(w: &mut VecDeque<T>, sample: T)
    ensures
        final(w)@ == slid(old(w)@, sample),
{
    let _ = w.pop_front();
    w.push_back(sample);
    assert(w@ =~= slid(old(w)@, sample));
}

/// Cuts or pads the window at its back to `n` samples.
pub fn resize_window<T: Copy>(w: &mut VecDeque<T>, n: usize, fill: T)
    ensures
        final(w)@ == resized(old(w)@, n as nat, fill),
{
    if n <= w.len() {
        w.truncate(n);
        assert(w@ =~= resized(old(w)@, n as nat, fill));
    } else {
        let start: usize = w.len();
        let mut k: usize = start;
        while k < n
            invariant
                start == old(w)@.len(),
                start <= k <= n,
                w@ == old(w)@ + filled((k - start) as nat, fill),
            decreases n - k,
        {
            w.push_back(fill);
            k = k + 1;
            assert(w@ =~= old(w)@ + filled((k - start) as nat, fill));
        }
    }
}

/// The samples of a window, oldest first.
pub fn window_to_vec<T: Copy>(w: &VecDeque<T>) -> (v: Vec<T>)
    ensures
        v@ == w@,
{
    let mut v: Vec<T> = Vec::new();
    let mut k: usize = 0;
    while k < w.len()
        invariant
            k <= w@.len(),
            v@ == w@.take(k as int),
        decreases w@.len() - k,
    {
        let x: T = w[k];
        v.push(x);
        k = k + 1;
        assert(v@ =~= w@.take(k as int));
    }
    assert(w@.take(w@.len() as int) =~= w@);
    v
}

/// A row of `count` windows, each of `n` copies of `fill`.
pub fn filled_windows<T: Copy>(count: usize, n: usize, fill: T) -> (ws: Vec<VecDeque<T>>)
    ensures
        windows_view(ws@) == filled(count as nat, filled(n as nat, fill)),
{
    let mut ws: Vec<VecDeque<T>> = Vec::new();
    let mut k: usize = 0;
    while k < count
        invariant
            k <= count,
            ws@.len() == k,
            windows_view(ws@) == filled(k as nat, filled(n as nat, fill)),
        decreases count - k,
    {
        let ghost prev = ws@;
        let w = filled_window(n, fill);
        ws.push(w);
        k = k + 1;
        assert forall|i: int| 0 <= i < k implies #[trigger] windows_view(ws@)[i] == filled(
            n as nat,
            fill,
        ) by {
            if i < k - 1 {
                assert(ws@[i] == prev[i]);
                assert(windows_view(prev)[i] == prev[i]@);
            }
        }
        assert(windows_view(ws@) =~= filled(k as nat, filled(n as nat, fill)));
    }
    ws
}

/// Cuts or pads the row at its back to `count` windows; new windows hold `n` copies
/// of `fill`.
pub fn resize_windows<T: Copy>(ws: &mut Vec<VecDeque<T>>, count: usize, n: usize, fill: T)
    ensures
        windows_view(final(ws)@) == resized(windows_view(old(ws)@), count as nat, filled(n as nat, fill)),
{
    if count <= ws.len() {
        ws.truncate(count);
        assert(windows_view(ws@) =~= resized(windows_view(old(ws)@), count as nat, filled(n as nat, fill)));
    } else {
        let start: usize = ws.len();
        let mut k: usize = start;
        while k < count
            invariant
                start == old(ws)@.len(),
                start <= k <= count,
                ws@.len() == k,
                windows_view(ws@) == windows_view(old(ws)@) + filled((k - start) as nat, filled(n as nat, fill)),
            decreases count - k,
        {
            let ghost prev = ws@;
            let w = filled_window(n, fill);
            ws.push(w);
            k = k + 1;
            assert forall|i: int| 0 <= i < k implies #[trigger] windows_view(ws@)[i] == (
            windows_view(old(ws)@) + filled((k - start) as nat, filled(n as nat, fill)))[i] by {
                if i < k - 1 {
                    assert(ws@[i] == prev[i]);
                    assert(windows_view(prev)[i] == prev[i]@);
                }
            }
            assert(windows_view(ws@) =~= windows_view(old(ws)@) + filled((k - start) as nat, filled(n as nat, fill)));
        }
    }
}

/// Cuts or pads every window of the row to `n` samples.
pub fn resize_each<T: Copy>(ws: &mut Vec<VecDeque<T>>, n: usize, fill: T)
    ensures
        final(ws)@.len() == old(ws)@.len(),
        forall|i: int| 0 <= i < old(ws)@.len() ==>
            windows_view(final(ws)@)[i] == #[trigger] resized(windows_view(old(ws)@)[i], n as nat, fill),
{
    let mut k: usize = 0;
    while k < ws.len()
        invariant
            k <= ws@.len(),
            ws@.len() == old(ws)@.len(),
            forall|i: int| 0 <= i < k ==>
                windows_view(ws@)[i] == #[trigger] resized(windows_view(old(ws)@)[i], n as nat, fill),
            forall|i: int| k <= i < ws@.len() ==> (#[trigger] ws@[i]) == old(ws)@[i],
        decreases ws@.len() - k,
    {
        resize_window(&mut ws[k], n, fill);
        k = k + 1;
    }
}

} // verus!

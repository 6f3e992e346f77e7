//! Light propagation engine.
//!
//! A light map is a row-major window of brightness cells, one `u8` per tile.
//! Brightness seeds are relaxed outwards by a worklist flood fill: popping a
//! probe cell propagates `brightness - fade` to its four neighbours, raising
//! any neighbour that is dimmer and queueing it as a new probe.  Border cells
//! of the window act as an open boundary: they are preset to full brightness
//! and are never overwritten, so no probe ever escapes the window.

use vstd::prelude::*;
use vstd::pervasive::VecAdditionalExecFns;

verus! {

/// Maximum brightness of a cell.
pub const LIGHT_MAX: u8 = 40;

/// Attenuation of fully open cells.
pub const FADE_MIN: u8 = 1;

/// Attenuation of solid tiles.
pub const FADE_SOLID: u8 = 8;

/// Attenuation of dense tiles.
pub const FADE_DENSE: u8 = 12;

/// Row-major cell index of column `x`, row `y` in a window of width `w`.
pub open spec fn lindex(w: int, x: int, y: int) -> int {
    x + y * w
}

/// Height of a window of width `w` holding the cells of `l`.
pub open spec fn window_h(len: int, w: int) -> int {
    len / w
}

/// The cell `i` lies strictly inside the window: not in the first or last
/// column, nor in the first or last row.
pub open spec fn is_interior(w: int, len: int, i: int) -> bool {
    &&& 1 <= i % w < w - 1
    &&& 1 <= i / w < window_h(len, w) - 1
}

/// The cell `i` lies in the window but on its border.
pub open spec fn is_border(w: int, len: int, i: int) -> bool {
    0 <= i < len && !is_interior(w, len, i)
}

/// The cell `n` is one of the four neighbours of the cell `c`.
pub open spec fn is_neighbor(w: int, c: int, n: int) -> bool {
    n == c - 1 || n == c + 1 || n == c - w || n == c + w
}

/// A well-formed light window: width at least 3, height at least 3, an exact
/// number of rows, cell indices representable as `u16`.
pub open spec fn window_ok(len: int, flen: int, w: int) -> bool {
    &&& w >= 3
    &&& len == flen
    &&& len == w * window_h(len, w)
    &&& window_h(len, w) >= 3
    &&& len <= 65536
}

/// Largest cell value of a light buffer (0 if empty).
pub open spec fn smax(s: Seq<u8>) -> int
    decreases s.len(),
{
    if s.len() == 0 {
        0
    } else {
        let m = smax(s.drop_last());
        if s.last() > m {
            s.last() as int
        } else {
            m
        }
    }
}

/// Total headroom of a light buffer; strictly shrinks on every raise.
pub open spec fn deficit(s: Seq<u8>) -> nat
    decreases s.len(),
{
    if s.len() == 0 {
        0
    } else {
        deficit(s.drop_last()) + (255 - s.last()) as nat
    }
}

/// Brightness that the cell `i` hands to its neighbours.
pub open spec fn relaxed(l: Seq<u8>, f: Seq<u8>, i: int) -> int {
    if l[i] - f[i] >= 0 {
        l[i] - f[i]
    } else {
        0
    }
}

/// The cell `i` has nothing left to propagate: each of its four neighbours
/// already holds at least `l[i] - f[i]`.
pub open spec fn stable_at(l: Seq<u8>, f: Seq<u8>, w: int, i: int) -> bool {
    &&& l[i - 1] >= l[i] - f[i]
    &&& l[i + 1] >= l[i] - f[i]
    &&& l[i - w] >= l[i] - f[i]
    &&& l[i + w] >= l[i] - f[i]
}

/// The cell index `j` occurs in the probe list `p`.
pub open spec fn in_probes(p: Seq<u16>, j: int) -> bool {
    exists|m: int| 0 <= m < p.len() && p[m] == j
}

/// Every cell value is bounded by the buffer maximum.
pub proof fn lemma_smax_le(s: Seq<u8>)
    ensures
        forall|i: int| 0 <= i < s.len() ==> s[i] <= smax(s),
    decreases s.len(),
{
    if s.len() > 0 {
        lemma_smax_le(s.drop_last());
        assert forall|i: int| 0 <= i < s.len() implies s[i] <= smax(s) by {
            if i < s.len() - 1 {
                assert(s.drop_last()[i] == s[i]);
            }
        }
    }
}

/// Raising one cell moves the buffer maximum by at most the raise.
pub proof fn lemma_smax_update(s: Seq<u8>, j: int, v: u8)
    requires
        0 <= j < s.len(),
        s[j] <= v,
    ensures
        smax(s) <= smax(s.update(j, v)),
        smax(s.update(j, v)) <= if v > smax(s) { v as int } else { smax(s) },
    decreases s.len(),
{
    let t = s.update(j, v);
    if j == s.len() - 1 {
        assert(t.drop_last() =~= s.drop_last());
    } else {
        assert(t.drop_last() =~= s.drop_last().update(j, v));
        lemma_smax_update(s.drop_last(), j, v);
    }
}

/// Raising one cell shrinks the total headroom by exactly the raise.
pub proof fn lemma_deficit_update(s: Seq<u8>, j: int, v: u8)
    requires
        0 <= j < s.len(),
        s[j] <= v,
    ensures
        deficit(s.update(j, v)) + (v - s[j]) == deficit(s),
    decreases s.len(),
{
    let t = s.update(j, v);
    if j == s.len() - 1 {
        assert(t.drop_last() =~= s.drop_last());
    } else {
        assert(t.drop_last() =~= s.drop_last().update(j, v));
        lemma_deficit_update(s.drop_last(), j, v);
    }
}

/// An interior cell and its four neighbours lie in the window, away from the
/// ends of the buffer.
pub proof fn lemma_interior_bounds(w: int, len: int, i: int)
    requires
        w >= 3,
        len == w * window_h(len, w),
        window_h(len, w) >= 3,
        is_interior(w, len, i),
    ensures
        w + 1 <= i,
        i + w <= len - 2,
        i - 1 >= 0,
        i + 1 < len,
        i - w >= 0,
        i + w < len,
{
    let h = window_h(len, w);
    let x = i % w;
    let y = i / w;
    vstd::arithmetic::div_mod::lemma_fundamental_div_mod(i, w);
    assert(i == w * y + x);
    assert(w * 1 <= w * y <= w * (h - 2)) by (nonlinear_arith)
        requires
            1 <= y <= h - 2,
            w >= 3,
    ;
    assert(w * (h - 2) == w * h - 2 * w) by (nonlinear_arith);
}

/// A cell written as column plus row times width decomposes back into that
/// column and row.
pub proof fn lemma_lindex_decomp(w: int, x: int, y: int)
    requires
        0 <= x < w,
        0 <= y,
    ensures
        lindex(w, x, y) % w == x,
        lindex(w, x, y) / w == y,
{
    vstd::arithmetic::div_mod::lemma_fundamental_div_mod_converse(lindex(w, x, y), w, y, x);
}

/// Brightness of a border cell of a fresh light window.
pub open spec fn base_light(w: int, len: int, i: int) -> u8 {
    if is_border(w, len, i) {
        LIGHT_MAX
    } else {
        0
    }
}

/// Builds a light window of `w × h` cells: border cells at full brightness,
/// interior cells dark.
pub fn create_light_map_base(w: usize, h: usize) -> (r: Vec<u8>)
    requires
        3 <= w,
        3 <= h,
        w * h <= 65536,
    ensures
        r@.len() == w * h,
        forall|i: int| 0 <= i < r@.len() ==> r@[i] == base_light(w as int, (w * h) as int, i),
        window_ok(r@.len() as int, r@.len() as int, w as int),
        smax(r@) == LIGHT_MAX,
{
    let len: usize = w * h;
    let mut r: Vec<u8> = Vec::new();
    let mut y: usize = 0;
    while y < h
        invariant
            3 <= w,
            3 <= h,
            len == w * h,
            len <= 65536,
            y <= h,
            r@.len() == y * w,
            forall|i: int| 0 <= i < r@.len() ==> r@[i] == base_light(w as int, len as int, i),
        decreases h - y,
    {
        let mut x: usize = 0;
        assert(y * w + w <= len) by (nonlinear_arith)
            requires
                y < h,
                len == w * h,
        ;
        while x < w
            invariant
                3 <= w,
                3 <= h,
                len == w * h,
                len <= 65536,
                y < h,
                x <= w,
                y * w + w <= len,
                r@.len() == y * w + x,
                forall|i: int| 0 <= i < r@.len() ==> r@[i] == base_light(w as int, len as int, i),
            decreases w - x,
        {
            let border = x == 0 || x == w - 1 || y == 0 || y == h - 1;
            let v: u8 = if border {
                LIGHT_MAX
            } else {
                0
            };
            proof {
                let i = r@.len() as int;
                lemma_lindex_decomp(w as int, x as int, y as int);
                assert(i == lindex(w as int, x as int, y as int));
                assert(len == h * (w as int)) by (nonlinear_arith)
                    requires
                        len == w * h,
                ;
                assert(window_h(len as int, w as int) == h) by {
                    vstd::arithmetic::div_mod::lemma_fundamental_div_mod_converse(
                        len as int,
                        w as int,
                        h as int,
                        0,
                    );
                }
                assert(i < len) by (nonlinear_arith)
                    requires
                        i == x + y * w,
                        0 <= x < w,
                        0 <= y < h,
                        len == w * h,
                ;
                assert(is_border(w as int, len as int, i) <==> border);
            }
            r.push(v);
            x = x + 1;
        }
        proof {
            assert((y + 1) * w == y * w + w) by (nonlinear_arith);
        }
        y = y + 1;
    }
    proof {
        assert(h * w == w * h) by (nonlinear_arith);
    }
    proof {
        assert(window_h(len as int, w as int) == h) by {
            vstd::arithmetic::div_mod::lemma_fundamental_div_mod_converse(
                len as int,
                w as int,
                h as int,
                0,
            );
        }
        lemma_smax_le(r@);
        assert(r@[0] == base_light(w as int, len as int, 0));
        assert(is_border(w as int, len as int, 0)) by {
            vstd::arithmetic::div_mod::lemma_fundamental_div_mod_converse(0, w as int, 0, 0);
        }
        assert(smax(r@) >= LIGHT_MAX);
        lemma_smax_is_some_cell(r@);
    }
    r
}

/// The maximum of a non-empty buffer is one of its cells.
pub proof fn lemma_smax_is_some_cell(s: Seq<u8>)
    requires
        s.len() > 0,
    ensures
        exists|i: int| 0 <= i < s.len() && s[i] == smax(s),
    decreases s.len(),
{
    if s.len() == 1 {
        assert(s.drop_last().len() == 0);
        assert(smax(s.drop_last()) == 0);
        assert(s[0] == smax(s));
    } else if s.last() >= smax(s.drop_last()) {
        assert(s[s.len() - 1] == smax(s));
    } else {
        lemma_smax_is_some_cell(s.drop_last());
        let i = choose|i: int| 0 <= i < s.drop_last().len() && s.drop_last()[i] == smax(
            s.drop_last(),
        );
        assert(s[i] == smax(s));
    }
}

/// Builds a fade window of `w × h` cells, all at the minimum attenuation.
pub fn create_fade_map_base(w: usize, h: usize) -> (r: Vec<u8>)
    requires
        w * h <= 65536,
    ensures
        r@.len() == w * h,
        forall|i: int| 0 <= i < r@.len() ==> r@[i] == FADE_MIN,
{
    let len: usize = w * h;
    let mut r: Vec<u8> = Vec::new();
    let mut k: usize = 0;
    while k < len
        invariant
            k <= len,
            r@.len() == k,
            forall|i: int| 0 <= i < r@.len() ==> r@[i] == FADE_MIN,
        decreases len - k,
    {
        r.push(FADE_MIN);
        k = k + 1;
    }
    r
}

/// Every probe entry is an interior cell.
pub open spec fn probes_interior(ps: Seq<u16>, w: int, len: int) -> bool {
    forall|k: int| 0 <= k < ps.len() ==> is_interior(w, len, #[trigger] ps[k] as int)
}

/// The cell `c` still waits in the probe list at position `i` or later.
pub open spec fn pending(ps: Seq<u16>, i: int, c: int) -> bool {
    exists|m: int| i <= m < ps.len() && ps[m] == c
}

/// Every probe already popped is stable, unless it was queued again.
pub open spec fn sp_inv(l: Seq<u8>, f: Seq<u8>, ps: Seq<u16>, w: int, i: int) -> bool {
    forall|k: int|
        0 <= k < i ==> stable_at(l, f, w, #[trigger] ps[k] as int) || pending(ps, i, ps[k] as int)
}

/// The raised cell `c` holds exactly what some interior neighbour in the probe
/// list handed it (stated as an upper bound; stability gives the lower one).
pub open spec fn has_witness(l: Seq<u8>, f: Seq<u8>, ps: Seq<u16>, w: int, len: int, c: int) -> bool {
    exists|j: int|
        #[trigger] is_neighbor(w, j, c) && is_interior(w, len, j) && in_probes(ps, j) && l[c] <= l[j]
            - f[j]
}

/// Every raised cell has a witness neighbour.
pub open spec fn witness_inv(l: Seq<u8>, f: Seq<u8>, l0: Seq<u8>, ps: Seq<u16>, w: int) -> bool {
    forall|c: int|
        0 <= c < l.len() && #[trigger] l[c] != l0[c] ==> has_witness(l, f, ps, w, l.len() as int, c)
}

/// Every probe entry is stable.
pub open spec fn all_stable(l: Seq<u8>, f: Seq<u8>, w: int, ps: Seq<u16>) -> bool {
    forall|k: int| 0 <= k < ps.len() ==> stable_at(l, f, w, #[trigger] ps[k] as int)
}

/// One relaxation write: raising the neighbour `off` of the probe `p` to the
/// propagated brightness keeps every worklist invariant.
proof fn lemma_relax_write(
    l: Seq<u8>,
    f: Seq<u8>,
    ps: Seq<u16>,
    l0: Seq<u8>,
    w: int,
    p: int,
    off: int,
    nb: u8,
    i: int,
    pi: int,
)
    requires
        window_ok(l.len() as int, f.len() as int, w),
        is_interior(w, l.len() as int, p),
        is_neighbor(w, p, off),
        0 <= off < l.len(),
        nb == relaxed(l, f, p),
        l[off] < nb,
        forall|c: int| is_border(w, l.len() as int, c) ==> #[trigger] l[c] + 1 >= smax(l),
        forall|c: int| is_interior(w, l.len() as int, c) ==> #[trigger] f[c] >= 1,
        l0.len() == l.len(),
        smax(l) == smax(l0),
        forall|c: int| 0 <= c < l.len() ==> l0[c] <= #[trigger] l[c],
        forall|c: int| is_border(w, l.len() as int, c) ==> #[trigger] l[c] == l0[c],
        witness_inv(l, f, l0, ps, w),
        sp_inv(l, f, ps, w, i),
        probes_interior(ps, w, l.len() as int),
        forall|c: int| 0 <= c < l.len() && #[trigger] l[c] != l0[c] ==> in_probes(ps, c),
        0 <= pi < ps.len(),
        ps[pi] == p,
        0 <= i <= ps.len(),
    ensures
        is_interior(w, l.len() as int, off),
        ({
            let l2 = l.update(off, nb);
            let ps2 = ps.push(off as u16);
            &&& smax(l2) == smax(l0)
            &&& deficit(l2) < deficit(l)
            &&& forall|c: int| 0 <= c < l2.len() ==> l0[c] <= #[trigger] l2[c]
            &&& forall|c: int| 0 <= c < l2.len() ==> l[c] <= #[trigger] l2[c]
            &&& forall|c: int| is_border(w, l2.len() as int, c) ==> #[trigger] l2[c] == l0[c]
            &&& forall|c: int| is_border(w, l2.len() as int, c) ==> #[trigger] l2[c] + 1 >= smax(l2)
            &&& witness_inv(l2, f, l0, ps2, w)
            &&& sp_inv(l2, f, ps2, w, i)
            &&& probes_interior(ps2, w, l2.len() as int)
            &&& l2[p] == l[p]
            &&& forall|c: int|
                0 <= c < l2.len() && #[trigger] l2[c] != l0[c] ==> in_probes(ps2, c)
        }),
{
    let len = l.len() as int;
    let l2 = l.update(off, nb);
    let ps2 = ps.push(off as u16);
    lemma_smax_le(l);
    lemma_interior_bounds(w, len, p);
    assert(f[p] >= 1);
    assert(nb == l[p] - f[p]) by {
        assert(l[off] >= 0);
    }
    assert(nb <= smax(l) - 1);
    // The target is interior: a border cell already holds at least `nb`.
    assert(is_interior(w, len, off)) by {
        if is_border(w, len, off) {
            assert(l[off] + 1 >= smax(l));
        }
    }
    assert(off != p) by {
        lemma_interior_bounds(w, len, p);
    }
    lemma_smax_update(l, off, nb);
    lemma_deficit_update(l, off, nb);
    assert(l2[p] == l[p]);
    // Border cells are untouched and still dominate.
    assert forall|c: int| is_border(w, len, c) implies #[trigger] l2[c] == l0[c] && l2[c] + 1
        >= smax(l2) by {
        assert(l2[c] == l[c]);
    }
    // Witnesses survive: old ones because values only grow, the raised cell
    // gets the probe itself as witness.
    assert forall|c: int| 0 <= c < len && #[trigger] l2[c] != l0[c] implies has_witness(
        l2,
        f,
        ps2,
        w,
        len,
        c,
    ) by {
        if c == off {
            assert(in_probes(ps2, p)) by {
                assert(ps2[pi] == p);
            }
            assert(is_neighbor(w, p, c) && is_interior(w, len, p) && l2[c] <= l2[p] - f[p]);
        } else {
            assert(l[c] != l0[c]);
            let j = choose|j: int|
                #[trigger] is_neighbor(w, j, c) && is_interior(w, len, j) && in_probes(ps, j)
                    && l[c] <= l[j] - f[j];
            assert(in_probes(ps2, j)) by {
                let m = choose|m: int| 0 <= m < ps.len() && ps[m] == j;
                assert(ps2[m] == j);
            }
            lemma_interior_bounds(w, len, j);
            assert(l2[c] == l[c] && l2[j] >= l[j]);
            assert(is_neighbor(w, j, c) && is_interior(w, len, j) && in_probes(ps2, j) && l2[c]
                <= l2[j] - f[j]);
        }
    }
    // Popped probes stay stable or get requeued.
    assert forall|k: int| 0 <= k < i implies stable_at(l2, f, w, #[trigger] ps2[k] as int)
        || pending(ps2, i, ps2[k] as int) by {
        assert(ps2[k] == ps[k]);
        let q = ps[k] as int;
        if q == off {
            assert(ps2[ps.len() as int] == off as u16);
            assert(pending(ps2, i, q));
        } else if stable_at(l, f, w, q) {
            lemma_interior_bounds(w, len, q);
            assert(l2[q] == l[q]);
            assert(l2[q - 1] >= l[q - 1] && l2[q + 1] >= l[q + 1] && l2[q - w] >= l[q - w] && l2[q
                + w] >= l[q + w]);
            assert(stable_at(l2, f, w, q));
        } else {
            let m = choose|m: int| i <= m < ps.len() && ps[m] == q;
            assert(ps2[m] == q);
            assert(pending(ps2, i, q));
        }
    }
    assert forall|c: int| 0 <= c < l2.len() && #[trigger] l2[c] != l0[c] implies in_probes(
        ps2,
        c,
    ) by {
        if c == off {
            assert(ps2[ps.len() as int] == off as u16);
        } else {
            assert(l[c] != l0[c]);
            let m = choose|m: int| 0 <= m < ps.len() && ps[m] == c;
            assert(ps2[m] == c);
        }
    }
    assert forall|k: int| 0 <= k < ps2.len() implies is_interior(w, len, #[trigger] ps2[k] as int) by {
        if k < ps.len() {
            assert(ps2[k] == ps[k]);
        } else {
            assert(ps2[k] == off as u16);
            assert(off < 65536);
            assert(ps2[k] as int == off);
        }
    }
}

/// Once the probe at position `i` is stable, the popped prefix may grow by it.
proof fn lemma_sp_advance(l: Seq<u8>, f: Seq<u8>, ps: Seq<u16>, w: int, i: int)
    requires
        0 <= i < ps.len(),
        sp_inv(l, f, ps, w, i),
        stable_at(l, f, w, ps[i] as int),
    ensures
        sp_inv(l, f, ps, w, i + 1),
{
    assert forall|k: int| 0 <= k < i + 1 implies stable_at(l, f, w, #[trigger] ps[k] as int)
        || pending(ps, i + 1, ps[k] as int) by {
        if k < i {
            if !stable_at(l, f, w, ps[k] as int) {
                let m = choose|m: int| i <= m < ps.len() && ps[m] == ps[k] as int;
                if m == i {
                    assert(stable_at(l, f, w, ps[k] as int));
                } else {
                    assert(pending(ps, i + 1, ps[k] as int));
                }
            }
        }
    }
}

/// Floods brightness out of the probe cells until every cell is stable.
///
/// Relaxation: popping a probe hands `brightness - fade` (never below zero) to
/// its four neighbours; a dimmer neighbour is raised and queued.  The loop
/// terminates because every raise strictly shrinks the total headroom of the
/// buffer.  On return every cell a probe ever touched is stable, no cell got
/// dimmer, no cell exceeds the prior window maximum, border cells are
/// untouched, and a buffer whose probes were already stable comes back
/// unchanged, so a second run over the same probes is a no-op.
#[verifier::loop_isolation(false)]
#[verifier::rlimit(60)]
pub fn fill_light_map(stride: usize, light_map: &mut Vec<u8>, fade_map: &Vec<u8>, probes: Vec<u16>)
    requires
        window_ok(old(light_map)@.len() as int, fade_map@.len() as int, stride as int),
        probes_interior(probes@, stride as int, old(light_map)@.len() as int),
        forall|c: int|
            is_interior(stride as int, old(light_map)@.len() as int, c) ==> #[trigger] fade_map@[c]
                >= 1,
        forall|c: int|
            is_border(stride as int, old(light_map)@.len() as int, c) ==> #[trigger] old(
                light_map,
            )@[c] + 1 >= smax(old(light_map)@),
    ensures
        final(light_map)@.len() == old(light_map)@.len(),
        forall|c: int|
            0 <= c < final(light_map)@.len() ==> old(light_map)@[c]
                <= #[trigger] final(light_map)@[c],
        smax(final(light_map)@) == smax(old(light_map)@),
        forall|c: int|
            is_border(stride as int, final(light_map)@.len() as int, c)
                ==> #[trigger] final(light_map)@[c] == old(light_map)@[c],
        all_stable(final(light_map)@, fade_map@, stride as int, probes@),
        forall|c: int|
            0 <= c < final(light_map)@.len() && #[trigger] final(light_map)@[c] != old(
                light_map,
            )@[c] ==> stable_at(final(light_map)@, fade_map@, stride as int, c),
        forall|c: int|
            0 <= c < final(light_map)@.len() && #[trigger] final(light_map)@[c]
                != old(light_map)@[c] ==> exists|j: int|
                #[trigger] is_neighbor(stride as int, j, c) && is_interior(
                    stride as int,
                    final(light_map)@.len() as int,
                    j,
                ) && final(light_map)@[c] == final(light_map)@[j] - fade_map@[j],
        all_stable(old(light_map)@, fade_map@, stride as int, probes@)
            ==> final(light_map)@ == old(light_map)@,
{
    let ghost l0 = light_map@;
    let ghost ps0 = probes@;
    let ghost w = stride as int;
    let ghost len = light_map@.len() as int;
    let mut probes = probes;
    let mut i: usize = 0;
    while i < probes.len()
        invariant
            i <= probes.len(),
            light_map@.len() == len,
            smax(light_map@) == smax(l0),
            forall|c: int| 0 <= c < len ==> l0[c] <= #[trigger] light_map@[c],
            forall|c: int| is_border(w, len, c) ==> #[trigger] light_map@[c] == l0[c],
            forall|c: int| is_border(w, len, c) ==> #[trigger] light_map@[c] + 1 >= smax(light_map@),
            probes_interior(probes@, w, len),
            sp_inv(light_map@, fade_map@, probes@, w, i as int),
            witness_inv(light_map@, fade_map@, l0, probes@, w),
            forall|c: int| 0 <= c < len && #[trigger] light_map@[c] != l0[c] ==> in_probes(
                probes@,
                c,
            ),
            probes@.len() >= ps0.len(),
            probes@.subrange(0, ps0.len() as int) == ps0,
            all_stable(l0, fade_map@, w, ps0) ==> light_map@ == l0 && probes@ == ps0,
        decreases deficit(light_map@) + probes@.len() - i,
    {
        let ghost steady = all_stable(l0, fade_map@, w, ps0);
        let p: usize = probes[i] as usize;
        let ghost pi = i as int;
        i = i + 1;
        proof {
            assert(is_interior(w, len, p as int));
            lemma_interior_bounds(w, len, p as int);
        }
        let b = light_map[p];
        let fv = fade_map[p];
        let nb: u8 = if b >= fv {
            b - fv
        } else {
            0
        };
        assert(nb == relaxed(light_map@, fade_map@, p as int));
        let ghost l_in = light_map@;
        // Left neighbour.
        let off = p - 1;
        if light_map[off] < nb {
            proof {
                if steady {
                    assert(stable_at(l0, fade_map@, w, ps0[pi] as int));
                    assert(false);
                }
                lemma_relax_write(
                    light_map@,
                    fade_map@,
                    probes@,
                    l0,
                    w,
                    p as int,
                    off as int,
                    nb,
                    pi,
                    pi,
                );
            }
            light_map.set(off, nb);
            probes.push(off as u16);
        }
        assert(light_map@[p - 1] >= nb);
        assert(light_map@[p as int] == l_in[p as int] && nb == relaxed(
            light_map@,
            fade_map@,
            p as int,
        ));
        // Right neighbour.
        let off = p + 1;
        if light_map[off] < nb {
            proof {
                if steady {
                    assert(stable_at(l0, fade_map@, w, ps0[pi] as int));
                    assert(false);
                }
                lemma_relax_write(
                    light_map@,
                    fade_map@,
                    probes@,
                    l0,
                    w,
                    p as int,
                    off as int,
                    nb,
                    pi,
                    pi,
                );
            }
            light_map.set(off, nb);
            probes.push(off as u16);
        }
        assert(light_map@[p - 1] >= nb && light_map@[p + 1] >= nb);
        assert(light_map@[p as int] == l_in[p as int] && nb == relaxed(
            light_map@,
            fade_map@,
            p as int,
        ));
        // Upper neighbour.
        let off = p - stride;
        if light_map[off] < nb {
            proof {
                if steady {
                    assert(stable_at(l0, fade_map@, w, ps0[pi] as int));
                    assert(false);
                }
                lemma_relax_write(
                    light_map@,
                    fade_map@,
                    probes@,
                    l0,
                    w,
                    p as int,
                    off as int,
                    nb,
                    pi,
                    pi,
                );
            }
            light_map.set(off, nb);
            probes.push(off as u16);
        }
        assert(light_map@[p - 1] >= nb && light_map@[p + 1] >= nb && light_map@[p - w] >= nb);
        assert(light_map@[p as int] == l_in[p as int] && nb == relaxed(
            light_map@,
            fade_map@,
            p as int,
        ));
        // Lower neighbour.
        let off = p + stride;
        if light_map[off] < nb {
            proof {
                if steady {
                    assert(stable_at(l0, fade_map@, w, ps0[pi] as int));
                    assert(false);
                }
                lemma_relax_write(
                    light_map@,
                    fade_map@,
                    probes@,
                    l0,
                    w,
                    p as int,
                    off as int,
                    nb,
                    pi,
                    pi,
                );
            }
            light_map.set(off, nb);
            probes.push(off as u16);
        }
        proof {
            assert(light_map@[p - 1] >= nb && light_map@[p + 1] >= nb && light_map@[p - w] >= nb
                && light_map@[p + w] >= nb);
            assert(light_map@[p as int] == l_in[p as int]);
            assert(stable_at(light_map@, fade_map@, w, p as int));
            assert(probes@[pi] == ps0[pi] || pi >= ps0.len());
            assert(probes@[pi] as int == p);
            lemma_sp_advance(light_map@, fade_map@, probes@, w, pi);
            if steady {
                assert(light_map@ == l0 && probes@ == ps0);
            }
        }
    }
    proof {
        // Every queued probe was eventually popped and left stable.
        assert forall|k: int| 0 <= k < probes@.len() implies stable_at(
            light_map@,
            fade_map@,
            w,
            #[trigger] probes@[k] as int,
        ) by {
            assert(!pending(probes@, i as int, probes@[k] as int));
        }
        assert forall|k: int| 0 <= k < ps0.len() implies stable_at(
            light_map@,
            fade_map@,
            w,
            #[trigger] ps0[k] as int,
        ) by {
            assert(probes@[k] == ps0[k]);
        }
        // Every raised cell sits in the probe list and is therefore stable.
        assert forall|c: int|
            0 <= c < light_map@.len() && #[trigger] light_map@[c] != l0[c] implies stable_at(
            light_map@,
            fade_map@,
            w,
            c,
        ) by {
            let m = choose|m: int| 0 <= m < probes@.len() && probes@[m] == c;
            assert(stable_at(light_map@, fade_map@, w, probes@[m] as int));
        }
        // A raised cell holds exactly what its witness neighbour hands it.
        assert forall|c: int|
            0 <= c < light_map@.len() && #[trigger] light_map@[c] != l0[c] implies exists|j: int|
            #[trigger] is_neighbor(w, j, c) && is_interior(w, len, j) && light_map@[c]
                == light_map@[j] - fade_map@[j] by {
            let j = choose|j: int|
                #[trigger] is_neighbor(w, j, c) && is_interior(w, len, j) && in_probes(probes@, j)
                    && light_map@[c] <= light_map@[j] - fade_map@[j];
            let m = choose|m: int| 0 <= m < probes@.len() && probes@[m] == j;
            assert(stable_at(light_map@, fade_map@, w, j));
            lemma_interior_bounds(w, len, j);
            assert(light_map@[c] >= light_map@[j] - fade_map@[j]);
            assert(is_neighbor(w, j, c) && is_interior(w, len, j) && light_map@[c] == light_map@[j]
                - fade_map@[j]);
        }
    }
}

} // verus!

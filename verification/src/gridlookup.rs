//! The toroidal spatial index: a uniform grid of bins over the world
//! rectangle, queried for everything within one step of a point with
//! wraparound on both axes. Rebuilt every tick; entries are only ever
//! added or all cleared.
//!
//! Coordinates are micro-cells. The bin side must divide the world side
//! exactly and at least three bins must fit per axis: then a scan of the
//! three-by-three block of bins around a point finds exactly the entries
//! within one step of it, which `get_within_step`'s contract states.

use vstd::prelude::*;

verus! {

/// |a - b|.
pub open spec fn axis_abs(a: int, b: int) -> int {
    if a >= b {
        a - b
    } else {
        b - a
    }
}

/// Distance between `a` and `b` on a circle of circumference `m`.
pub open spec fn tor_dist(a: int, b: int, m: int) -> int {
    let d = axis_abs(a, b);
    if d <= m - d {
        d
    } else {
        m - d
    }
}

/// `c` as the neighbour of `q` sees it: shifted by a full period when the
/// wrapped direction is strictly shorter, so that the plain difference to
/// `q` is the toroidal one.
pub open spec fn reflect(c: int, q: int, m: int) -> int {
    let d = axis_abs(c, q);
    if d <= m - d {
        c
    } else if c > q {
        c - m
    } else {
        c + m
    }
}

/// The bin holding a point, as a flat index: row-major over bin columns.
pub open spec fn bin_of(px: int, py: int, xstep: int, ystep: int, xbins: int) -> int {
    (py / ystep) * xbins + px / xstep
}

/// The stored entry lies within one step of `(qx, qy)` on both axes,
/// distances taken around the torus.
pub open spec fn entry_close<T: Copy>(e: (u64, u64, T), qx: int, qy: int, s: GridShape) -> bool {
    &&& tor_dist(e.0 as int, qx, s.xmax as int) <= s.xstep as int
    &&& tor_dist(e.1 as int, qy, s.ymax as int) <= s.ystep as int
}

/// What the query hands back for a stored entry: its coordinates
/// reflected across the world boundary where the wrapped direction is
/// shorter, and its payload.
pub open spec fn reflected<T: Copy>(e: (u64, u64, T), qx: int, qy: int, s: GridShape) -> (
    i64,
    i64,
    T,
) {
    (
        reflect(e.0 as int, qx, s.xmax as int) as i64,
        reflect(e.1 as int, qy, s.ymax as int) as i64,
        e.2,
    )
}

/// The flat index of the bin the scan visits at step `d` of nine, in
/// row-major order around the query point's own bin.
pub open spec fn scan_bin(s: GridShape, qx: int, qy: int, d: int) -> int {
    let xb = (qx / (s.xstep as int) + (s.xbins as int) + d / 3 - 1) % (s.xbins as int);
    let yb = (qy / (s.ystep as int) + (s.ybins as int) + d % 3 - 1) % (s.ybins as int);
    yb * (s.xbins as int) + xb
}

/// What the scan keeps of one bin's first `j` slots: each close entry,
/// reflected, in slot order.
pub open spec fn close_prefix<T: Copy>(
    bin: Seq<(u64, u64, T)>,
    qx: int,
    qy: int,
    s: GridShape,
    j: int,
) -> Seq<(i64, i64, T)>
    decreases j,
{
    if j <= 0 {
        Seq::empty()
    } else {
        let p = close_prefix(bin, qx, qy, s, j - 1);
        if entry_close(bin[j - 1], qx, qy, s) {
            p.push(reflected(bin[j - 1], qx, qy, s))
        } else {
            p
        }
    }
}

/// Everything the scan yields through its first `d` of nine bins: the
/// query's exact result, order and multiplicity included, at `d == 9`.
pub open spec fn scan_results<T: Copy>(g: GridLookup<T>, qx: int, qy: int, d: int) -> Seq<(
    i64,
    i64,
    T,
)>
    decreases d,
{
    if d <= 0 {
        Seq::empty()
    } else {
        let b = scan_bin(g.shape(), qx, qy, d - 1);
        scan_results(g, qx, qy, d - 1) + close_prefix(
            g.bins()[b],
            qx,
            qy,
            g.shape(),
            g.bins()[b].len() as int,
        )
    }
}

/// The grid's shape, for contracts.
pub struct GridShape {
    pub xmax: u64,
    pub ymax: u64,
    pub xstep: u64,
    pub ystep: u64,
    pub xbins: usize,
    pub ybins: usize,
}

pub struct GridLookup<T: Copy> {
    xmax: u64,
    ymax: u64,
    xstep: u64,
    ystep: u64,
    xbins: usize,
    ybins: usize,
    data: Vec<Vec<(u64, u64, T)>>,
}

impl<T: Copy> GridLookup<T> {
    pub closed spec fn shape(self) -> GridShape {
        GridShape {
            xmax: self.xmax,
            ymax: self.ymax,
            xstep: self.xstep,
            ystep: self.ystep,
            xbins: self.xbins,
            ybins: self.ybins,
        }
    }

    /// The stored entries, bin by bin.
    pub closed spec fn bins(self) -> Seq<Seq<(u64, u64, T)>> {
        self.data@.map_values(|v: Vec<(u64, u64, T)>| v@)
    }

    /// Shape soundness: positive steps dividing the sides exactly, at
    /// least three bins per axis, sides small enough for exact signed
    /// arithmetic, one stored vector per bin, and every entry lying in
    /// the world rectangle and in the bin its coordinates select.
    pub open spec fn wf(self) -> bool {
        let s = self.shape();
        &&& 1 <= s.xstep <= 100000000
        &&& 1 <= s.ystep <= 100000000
        &&& 3 <= s.xbins <= 100000
        &&& 3 <= s.ybins <= 100000
        &&& s.xbins * s.ybins <= 1000000000
        &&& s.xmax <= 10000000000000
        &&& s.ymax <= 10000000000000
        &&& s.xmax == s.xbins * s.xstep
        &&& s.ymax == s.ybins * s.ystep
        &&& self.bins().len() == s.xbins * s.ybins
        &&& forall|b: int, j: int|
            0 <= b < self.bins().len() && 0 <= j < (#[trigger] self.bins()[b]).len() ==> {
                let e = #[trigger] self.bins()[b][j];
                &&& e.0 < s.xmax
                &&& e.1 < s.ymax
                &&& bin_of(
                    e.0 as int,
                    e.1 as int,
                    s.xstep as int,
                    s.ystep as int,
                    s.xbins as int,
                ) == b
            }
    }

    /// All bins empty.
    pub open spec fn is_empty(self) -> bool {
        forall|b: int| 0 <= b < self.bins().len() ==> (#[trigger] self.bins()[b]).len() == 0
    }

    /// An empty grid over an `xmax` by `ymax` rectangle with bins of side
    /// `xstep` by `ystep`. The steps must divide the sides exactly, with
    /// at least three bins each way: the query contract depends on it.
    pub fn new(xmax: u64, ymax: u64, xstep: u64, ystep: u64) -> (g: GridLookup<T>)
        requires
            1 <= xstep <= 100000000,
            1 <= ystep <= 100000000,
            xmax % xstep == 0,
            ymax % ystep == 0,
            3 * xstep <= xmax,
            3 * ystep <= ymax,
            xmax / xstep <= 100000,
            ymax / ystep <= 100000,
            (xmax / xstep) * (ymax / ystep) <= 1000000000,
        ensures
            g.wf(),
            g.is_empty(),
            g.shape() == (GridShape {
                xmax,
                ymax,
                xstep,
                ystep,
                xbins: (xmax / xstep) as usize,
                ybins: (ymax / ystep) as usize,
            }),
    {
        let xbins: usize = (xmax / xstep) as usize;
        let ybins: usize = (ymax / ystep) as usize;
        proof {
            vstd::arithmetic::div_mod::lemma_fundamental_div_mod(xmax as int, xstep as int);
            vstd::arithmetic::div_mod::lemma_fundamental_div_mod(ymax as int, ystep as int);
            assert(xbins >= 3) by {
                vstd::arithmetic::div_mod::lemma_div_is_ordered(
                    3 * xstep as int,
                    xmax as int,
                    xstep as int,
                );
                vstd::arithmetic::div_mod::lemma_div_by_multiple(3, xstep as int);
            }
            assert(ybins >= 3) by {
                vstd::arithmetic::div_mod::lemma_div_is_ordered(
                    3 * ystep as int,
                    ymax as int,
                    ystep as int,
                );
                vstd::arithmetic::div_mod::lemma_div_by_multiple(3, ystep as int);
            }
        }
        proof {
            assert((xbins as int) * (ybins as int) <= 1000000000) by (nonlinear_arith)
                requires
                    xbins as int == (xmax as int / xstep as int),
                    ybins as int == (ymax as int / ystep as int),
                    (xmax as int / xstep as int) * (ymax as int / ystep as int) <= 1000000000;
        }
        let n: usize = xbins * ybins;
        let data: Vec<Vec<(u64, u64, T)>> = vec_of_empty(n);
        let g = GridLookup { xmax, ymax, xstep, ystep, xbins, ybins, data };
        proof {
            assert(g.bins().len() == n);
            assert((xbins as int) * (xstep as int) == xmax as int) by (nonlinear_arith)
                requires xmax as int == (xstep as int) * (xbins as int);
            assert((ybins as int) * (ystep as int) == ymax as int) by (nonlinear_arith)
                requires ymax as int == (ystep as int) * (ybins as int);
            assert(xmax as int <= 10000000000000) by (nonlinear_arith)
                requires
                    xmax as int == (xbins as int) * (xstep as int),
                    xbins as int <= 100000,
                    xstep as int <= 100000000;
            assert(ymax as int <= 10000000000000) by (nonlinear_arith)
                requires
                    ymax as int == (ybins as int) * (ystep as int),
                    ybins as int <= 100000,
                    ystep as int <= 100000000;
        }
        g
    }

    /// Stores `val` at `coord` taken modulo the world rectangle, in the
    /// bin those wrapped coordinates select: any point off the rectangle
    /// lands on its torus representative.
    pub fn put(&mut self, coord: (u64, u64), val: T)
        requires
            old(self).wf(),
        ensures
            final(self).wf(),
            final(self).shape() == old(self).shape(),
            final(self).bins().len() == old(self).bins().len(),
            ({
                let s = old(self).shape();
                let px = coord.0 % s.xmax;
                let py = coord.1 % s.ymax;
                let b = bin_of(
                    px as int,
                    py as int,
                    s.xstep as int,
                    s.ystep as int,
                    s.xbins as int,
                );
                &&& 0 <= b < old(self).bins().len()
                &&& final(self).bins()[b] == old(self).bins()[b].push((px, py, val))
                &&& forall|c: int|
                    0 <= c < old(self).bins().len() && c != b ==> #[trigger] final(self).bins()[c]
                        == old(self).bins()[c]
            }),
    {
        proof {
            assert((self.xbins as int) * (self.xstep as int) >= 3) by (nonlinear_arith)
                requires self.xbins as int >= 3, self.xstep as int >= 1;
            assert((self.ybins as int) * (self.ystep as int) >= 3) by (nonlinear_arith)
                requires self.ybins as int >= 3, self.ystep as int >= 1;
        }
        let x: u64 = coord.0 % self.xmax;
        let y: u64 = coord.1 % self.ymax;
        proof {
            lemma_div_below(x as int, self.xstep as int, self.xbins as int);
            lemma_div_below(y as int, self.ystep as int, self.ybins as int);
        }
        let xbin: usize = (x / self.xstep) as usize;
        let ybin: usize = (y / self.ystep) as usize;
        proof {
            assert((ybin as int) * (self.xbins as int) + (xbin as int) < (self.xbins as int) * (
            self.ybins as int)) by (nonlinear_arith)
                requires
                    0 <= xbin as int,
                    (xbin as int) < (self.xbins as int),
                    0 <= ybin as int,
                    (ybin as int) < (self.ybins as int);
            assert((self.xbins as int) * (self.ybins as int) <= 1000000000);
        }
        let indx: usize = ybin * self.xbins + xbin;
        self.data[indx].push((x, y, val));
        proof {
            assert(self.bins() =~= old(self).bins().update(
                indx as int,
                old(self).bins()[indx as int].push((x, y, val)),
            ));
        }
    }

    /// `item` is the reflection of some stored entry within one step of
    /// the query point.
    pub open spec fn query_item_ok(self, qx: int, qy: int, item: (i64, i64, T)) -> bool {
        exists|b: int, j: int|
            0 <= b < self.bins().len() && 0 <= j < self.bins()[b].len() && entry_close(
                #[trigger] self.bins()[b][j],
                qx,
                qy,
                self.shape(),
            ) && item == reflected(self.bins()[b][j], qx, qy, self.shape())
    }

    /// Scans the three-by-three block of bins around `coord`, indices
    /// wrapping on both axes, and yields exactly the stored entries whose
    /// toroidal distance to `coord` is within one step on both axes, each
    /// with its coordinates reflected across the world boundary where the
    /// wrapped direction is the shorter one.
    pub fn get_within_step(&self, coord: (u64, u64)) -> (r: Vec<(i64, i64, T)>)
        requires
            self.wf(),
            coord.0 < self.shape().xmax,
            coord.1 < self.shape().ymax,
        ensures
            forall|k: int|
                0 <= k < r@.len() ==> self.query_item_ok(
                    coord.0 as int,
                    coord.1 as int,
                    #[trigger] r@[k],
                ),
            forall|b: int, j: int|
                0 <= b < self.bins().len() && 0 <= j < self.bins()[b].len() && entry_close(
                    #[trigger] self.bins()[b][j],
                    coord.0 as int,
                    coord.1 as int,
                    self.shape(),
                ) ==> r@.contains(
                    reflected(self.bins()[b][j], coord.0 as int, coord.1 as int, self.shape()),
                ),
            forall|k: int|
                0 <= k < r@.len() ==> {
                    &&& axis_abs(#[trigger] r@[k].0 as int, coord.0 as int)
                        <= self.shape().xstep as int
                    &&& axis_abs(r@[k].1 as int, coord.1 as int) <= self.shape().ystep as int
                },
            r@ == scan_results(*self, coord.0 as int, coord.1 as int, 9),
    {
        let ghost s = self.shape();
        let (qx, qy) = coord;
        proof {
            lemma_div_below(qx as int, self.xstep as int, self.xbins as int);
            lemma_div_below(qy as int, self.ystep as int, self.ybins as int);
        }
        let qxbin: usize = (qx / self.xstep) as usize;
        let qybin: usize = (qy / self.ystep) as usize;
        let mut r: Vec<(i64, i64, T)> = Vec::new();
        let mut d: usize = 0;
        while d < 9
            invariant
                self.wf(),
                s == self.shape(),
                qx == coord.0,
                qy == coord.1,
                qx < s.xmax,
                qy < s.ymax,
                qxbin as int == qx as int / s.xstep as int,
                qybin as int == qy as int / s.ystep as int,
                qxbin < s.xbins,
                qybin < s.ybins,
                d <= 9,
                r@ == scan_results(*self, qx as int, qy as int, d as int),
                forall|k: int|
                    0 <= k < r@.len() ==> self.query_item_ok(
                        qx as int,
                        qy as int,
                        #[trigger] r@[k],
                    ),
                forall|k: int|
                    0 <= k < r@.len() ==> {
                        &&& axis_abs(#[trigger] r@[k].0 as int, qx as int) <= s.xstep as int
                        &&& axis_abs(r@[k].1 as int, qy as int) <= s.ystep as int
                    },
                forall|b: int, j: int|
                    0 <= b < self.bins().len() && 0 <= j < self.bins()[b].len() && entry_close(
                        #[trigger] self.bins()[b][j],
                        qx as int,
                        qy as int,
                        s,
                    ) && (exists|d2: int| 0 <= d2 < d && b == #[trigger] scan_bin(s, qx as int, qy as int, d2))
                        ==> r@.contains(reflected(self.bins()[b][j], qx as int, qy as int, s)),
            decreases 9 - d,
        {
            let dx: usize = d / 3;
            let dy: usize = d % 3;
            let xb: usize = (qxbin + self.xbins + dx - 1) % self.xbins;
            let yb: usize = (qybin + self.ybins + dy - 1) % self.ybins;
            proof {
                assert((yb as int) * (s.xbins as int) + (xb as int) < (s.xbins as int) * (
                s.ybins as int)) by (nonlinear_arith)
                    requires
                        0 <= xb as int,
                        (xb as int) < (s.xbins as int),
                        0 <= yb as int,
                        (yb as int) < (s.ybins as int);
                assert((s.xbins as int) * (s.ybins as int) <= 1000000000);
            }
            let indx: usize = yb * self.xbins + xb;
            let ghost bi = indx as int;
            proof {
                assert(bi == scan_bin(s, qx as int, qy as int, d as int));
            }
            proof {
                assert(r@ =~= scan_results(*self, qx as int, qy as int, d as int) + close_prefix(
                    self.bins()[bi],
                    qx as int,
                    qy as int,
                    s,
                    0,
                ));
            }
            let n_j: usize = self.data[indx].len();
            let mut j: usize = 0;
            while j < n_j
                invariant
                    self.wf(),
                    s == self.shape(),
                    qx == coord.0,
                    qy == coord.1,
                    qx < s.xmax,
                    qy < s.ymax,
                    d < 9,
                    indx < self.data@.len(),
                    bi == indx as int,
                    n_j == self.bins()[bi].len(),
                    j <= n_j,
                    bi == scan_bin(s, qx as int, qy as int, d as int),
                    r@ == scan_results(*self, qx as int, qy as int, d as int) + close_prefix(
                        self.bins()[bi],
                        qx as int,
                        qy as int,
                        s,
                        j as int,
                    ),
                    forall|k: int|
                        0 <= k < r@.len() ==> self.query_item_ok(
                            qx as int,
                            qy as int,
                            #[trigger] r@[k],
                        ),
                    forall|k: int|
                        0 <= k < r@.len() ==> {
                            &&& axis_abs(#[trigger] r@[k].0 as int, qx as int) <= s.xstep as int
                            &&& axis_abs(r@[k].1 as int, qy as int) <= s.ystep as int
                        },
                    forall|b: int, jj: int|
                        0 <= b < self.bins().len() && 0 <= jj < self.bins()[b].len() && entry_close(
                            #[trigger] self.bins()[b][jj],
                            qx as int,
                            qy as int,
                            s,
                        ) && (exists|d2: int|
                            0 <= d2 < d && b == #[trigger] scan_bin(s, qx as int, qy as int, d2))
                            ==> r@.contains(reflected(self.bins()[b][jj], qx as int, qy as int, s)),
                    forall|jj: int|
                        0 <= jj < j && entry_close(
                            #[trigger] self.bins()[bi][jj],
                            qx as int,
                            qy as int,
                            s,
                        ) ==> r@.contains(
                            reflected(self.bins()[bi][jj], qx as int, qy as int, s),
                        ),
                decreases n_j - j,
            {
                let (px, py, t) = self.data[indx][j];
                let dxa: u64 = if px >= qx { px - qx } else { qx - px };
                let dya: u64 = if py >= qy { py - qy } else { qy - py };
                let wrapx: bool = dxa > self.xmax - dxa;
                let wrapy: bool = dya > self.ymax - dya;
                let ddx: u64 = if wrapx { self.xmax - dxa } else { dxa };
                let ddy: u64 = if wrapy { self.ymax - dya } else { dya };
                if ddx <= self.xstep && ddy <= self.ystep {
                    let rx: i64 = if !wrapx {
                        px as i64
                    } else if px > qx {
                        px as i64 - self.xmax as i64
                    } else {
                        px as i64 + self.xmax as i64
                    };
                    let ry: i64 = if !wrapy {
                        py as i64
                    } else if py > qy {
                        py as i64 - self.ymax as i64
                    } else {
                        py as i64 + self.ymax as i64
                    };
                    let ghost r0 = r@;
                    r.push((rx, ry, t));
                    proof {
                        let e = self.bins()[bi][j as int];
                        assert(entry_close(e, qx as int, qy as int, s));
                        assert(rx as int == reflect(e.0 as int, qx as int, s.xmax as int));
                        assert(ry as int == reflect(e.1 as int, qy as int, s.ymax as int));
                        assert(r@[r@.len() - 1] == reflected(e, qx as int, qy as int, s));
                        assert(self.query_item_ok(qx as int, qy as int, r@[r@.len() - 1]));
                        assert forall|y: (i64, i64, T)| r0.contains(y) implies r@.contains(y) by {
                            let i = choose|i: int| 0 <= i < r0.len() && r0[i] == y;
                            assert(r@[i] == y);
                        }
                        assert(r@.contains(reflected(e, qx as int, qy as int, s)));
                        assert(r@ =~= scan_results(*self, qx as int, qy as int, d as int)
                            + close_prefix(
                            self.bins()[bi],
                            qx as int,
                            qy as int,
                            s,
                            j as int + 1,
                        ));
                    }
                } else {
                    proof {
                        assert(!entry_close(
                            self.bins()[bi][j as int],
                            qx as int,
                            qy as int,
                            s,
                        ));
                        assert(r@ =~= scan_results(*self, qx as int, qy as int, d as int)
                            + close_prefix(
                            self.bins()[bi],
                            qx as int,
                            qy as int,
                            s,
                            j as int + 1,
                        ));
                    }
                }
                j = j + 1;
            }
            proof {
                assert(r@ =~= scan_results(*self, qx as int, qy as int, d as int + 1));
            }
            d = d + 1;
        }
        proof {
            assert forall|b: int, j: int|
                0 <= b < self.bins().len() && 0 <= j < self.bins()[b].len() && entry_close(
                    #[trigger] self.bins()[b][j],
                    qx as int,
                    qy as int,
                    s,
                ) implies r@.contains(
                reflected(self.bins()[b][j], qx as int, qy as int, s),
            ) by {
                let e = self.bins()[b][j];
                let n = s.xbins as int;
                let m = s.ybins as int;
                let bqx = qx as int / s.xstep as int;
                let bqy = qy as int / s.ystep as int;
                lemma_axis_bins(e.0 as int, qx as int, s.xstep as int, n);
                lemma_axis_bins(e.1 as int, qy as int, s.ystep as int, m);
                let dxv: int = if e.0 as int / s.xstep as int == (bqx + n - 1) % n {
                    0
                } else if e.0 as int / s.xstep as int == (bqx + n) % n {
                    1
                } else {
                    2
                };
                let dyv: int = if e.1 as int / s.ystep as int == (bqy + m - 1) % m {
                    0
                } else if e.1 as int / s.ystep as int == (bqy + m) % m {
                    1
                } else {
                    2
                };
                let d2 = 3 * dxv + dyv;
                assert(0 <= d2 < 9);
                assert(d2 / 3 == dxv && d2 % 3 == dyv) by (nonlinear_arith)
                    requires 0 <= dxv < 3, 0 <= dyv < 3, d2 == 3 * dxv + dyv;
                assert(b == scan_bin(s, qx as int, qy as int, d2));
            }
        }
        r
    }

    /// Empties every bin; shape kept.
    pub fn clear(&mut self)
        requires
            old(self).wf(),
        ensures
            final(self).wf(),
            final(self).shape() == old(self).shape(),
            final(self).is_empty(),
    {
        let mut i: usize = 0;
        let n: usize = self.data.len();
        while i < n
            invariant
                old(self).wf(),
                n == self.data@.len(),
                i <= n,
                self.shape() == old(self).shape(),
                self.data@.len() == old(self).data@.len(),
                forall|b: int| 0 <= b < i ==> (#[trigger] self.data@[b])@.len() == 0,
                forall|b: int| i <= b < n ==> #[trigger] self.data@[b] == old(self).data@[b],
            decreases n - i,
        {
            self.data[i].clear();
            i = i + 1;
        }
    }
}

/// Points within one step on an axis of `n` bins of side `s` fall in the
/// same or an adjacent bin, indices taken modulo `n`.
proof fn lemma_axis_bins(p: int, q: int, s: int, n: int)
    requires
        1 <= s,
        3 <= n,
        0 <= p < n * s,
        0 <= q < n * s,
        tor_dist(p, q, n * s) <= s,
    ensures
        p / s == (q / s + n - 1) % n || p / s == (q / s + n) % n || p / s == (q / s + n + 1) % n,
{
    let m = n * s;
    let bp = p / s;
    let bq = q / s;
    lemma_div_below(p, s, n);
    lemma_div_below(q, s, n);
    vstd::arithmetic::div_mod::lemma_fundamental_div_mod(p, s);
    vstd::arithmetic::div_mod::lemma_fundamental_div_mod(q, s);
    assert(s * bp <= p < s * (bp + 1)) by (nonlinear_arith)
        requires p == s * bp + p % s, 0 <= p % s < s;
    assert(s * bq <= q < s * (bq + 1)) by (nonlinear_arith)
        requires q == s * bq + q % s, 0 <= q % s < s;
    vstd::arithmetic::div_mod::lemma_mod_add_multiples_vanish(bq - 1, n);
    vstd::arithmetic::div_mod::lemma_mod_add_multiples_vanish(bq, n);
    vstd::arithmetic::div_mod::lemma_mod_add_multiples_vanish(bq + 1, n);
    if 0 <= bq - 1 {
        vstd::arithmetic::div_mod::lemma_small_mod((bq - 1) as nat, n as nat);
    }
    vstd::arithmetic::div_mod::lemma_small_mod(bq as nat, n as nat);
    if bq + 1 < n {
        vstd::arithmetic::div_mod::lemma_small_mod((bq + 1) as nat, n as nat);
    }
    if axis_abs(p, q) <= s {
        // No wrap: the quotients differ by at most one.
        if p <= q {
            vstd::arithmetic::div_mod::lemma_div_is_ordered(p, q, s);
            assert(q < s * (bp + 2)) by (nonlinear_arith)
                requires q <= p + s, p < s * (bp + 1);
            lemma_div_below(q, s, bp + 2);
        } else {
            vstd::arithmetic::div_mod::lemma_div_is_ordered(q, p, s);
            assert(p < s * (bq + 2)) by (nonlinear_arith)
                requires p <= q + s, q < s * (bq + 1);
            lemma_div_below(p, s, bq + 2);
            if bp == bq + 1 {
                assert(bq + 1 < n);
            }
        }
    } else {
        // Wrapped: the two points hug opposite ends of the axis.
        assert(m - axis_abs(p, q) <= s);
        if p > q {
            assert(p >= (n - 1) * s) by (nonlinear_arith)
                requires p - q >= n * s - s, q >= 0;
            assert(bp >= n - 1) by (nonlinear_arith)
                requires p >= (n - 1) * s, p < s * (bp + 1), s >= 1;
            assert(q < s) by (nonlinear_arith)
                requires q <= p - (n * s - s), p < n * s;
            lemma_div_below(q, s, 1);
            assert(bp == n - 1 && bq == 0);
            assert((bq + n - 1) % n == n - 1) by {
                vstd::arithmetic::div_mod::lemma_small_mod((n - 1) as nat, n as nat);
            }
        } else {
            assert(q >= (n - 1) * s) by (nonlinear_arith)
                requires q - p >= n * s - s, p >= 0;
            assert(bq >= n - 1) by (nonlinear_arith)
                requires q >= (n - 1) * s, q < s * (bq + 1), s >= 1;
            assert(p < s) by (nonlinear_arith)
                requires p <= q - (n * s - s), q < n * s;
            lemma_div_below(p, s, 1);
            assert(bp == 0 && bq == n - 1);
            assert((bq + n + 1) % n == 0) by {
                vstd::arithmetic::div_mod::lemma_mod_multiples_basic(2, n);
            }
        }
    }
}

/// Law: toroidal distance does not depend on which end it is measured
/// from, so two points within one step see each other mutually.
pub proof fn lemma_tor_dist_symmetric(a: int, b: int, m: int)
    ensures
        tor_dist(a, b, m) == tor_dist(b, a, m),
{
}

/// The reflected coordinate differs from the query point by exactly the
/// toroidal distance.
pub proof fn lemma_reflect_dist(c: int, q: int, m: int)
    requires
        0 <= c < m,
        0 <= q < m,
    ensures
        axis_abs(reflect(c, q, m), q) == tor_dist(c, q, m),
        0 <= tor_dist(c, q, m),
{
}

/// `a < k * s` with `s >= 1` puts `a / s` below `k`.
proof fn lemma_div_below(a: int, s: int, k: int)
    requires
        0 <= a,
        1 <= s,
        a < k * s,
    ensures
        0 <= a / s < k,
{
    vstd::arithmetic::div_mod::lemma_div_pos_is_pos(a, s);
    vstd::arithmetic::div_mod::lemma_fundamental_div_mod(a, s);
    assert(a / s < k) by (nonlinear_arith)
        requires
            0 <= a,
            1 <= s,
            a < k * s,
            a == s * (a / s) + a % s,
            0 <= a % s < s;
}

/// `n` freshly empty bins.
fn vec_of_empty<T: Copy>(n: usize) -> (v: Vec<Vec<(u64, u64, T)>>)
    ensures
        v@.len() == n,
        forall|b: int| 0 <= b < n ==> (#[trigger] v@[b])@.len() == 0,
{
    let mut v: Vec<Vec<(u64, u64, T)>> = Vec::new();
    let mut i: usize = 0;
    while i < n
        invariant
            i <= n,
            v@.len() == i,
            forall|b: int| 0 <= b < i ==> (#[trigger] v@[b])@.len() == 0,
        decreases n - i,
    {
        v.push(Vec::new());
        i = i + 1;
    }
    v
}

} // verus!

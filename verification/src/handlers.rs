//! The computing side of the HTTP handlers: list limits and the pairs of
//! tracks whose similarity is recomputed.

use vstd::prelude::*;

verus! {

/// Query string of the track listing endpoint.
pub struct TrackListQuery {
    pub limit: Option<usize>,
}

/// Query string of the playlist listing endpoint.
pub struct PlaylistListQuery {
    pub limit: Option<usize>,
}

/// Number of rows a listing returns: the requested limit, or `default`
/// when none was given, but never more than `cap`.
pub open spec fn capped_limit(limit: Option<usize>, default: nat, cap: nat) -> nat {
    let wanted: nat = match limit {
        Some(l) => l as nat,
        None => default,
    };
    if wanted < cap { wanted } else { cap }
}

/// A listing returns exactly the requested number of rows up to the cap,
/// and the default (up to the cap) when no number was requested: it is
/// the smaller of the two, and never more than either.
pub proof fn lemma_capped_limit_is_min(limit: Option<usize>, default: nat, cap: nat)
    ensures
        limit matches Some(l) ==> capped_limit(limit, default, cap) == vstd::math::min(l as int, cap as int),
        limit is None ==> capped_limit(limit, default, cap) == vstd::math::min(default as int, cap as int),
        capped_limit(limit, default, cap) <= cap,
        limit matches Some(l) ==> (l <= cap ==> capped_limit(limit, default, cap) == l),
{
}

impl TrackListQuery {
    /// Tracks listed for this query: 100 by default, at most 1000.
    pub fn effective_limit(&self) -> (r: usize)
        ensures
            r == capped_limit(self.limit, 100, 1000),
            r <= 1000,
            self.limit matches Some(l) ==> r == vstd::math::min(l as int, 1000),
            self.limit is None ==> r == 100,
    {
        let wanted = match self.limit {
            Some(l) => l,
            None => 100,
        };
        if wanted < 1000 { wanted } else { 1000 }
    }
}

impl PlaylistListQuery {
    /// Playlists listed for this query: 50 by default, at most 500.
    pub fn effective_limit(&self) -> (r: usize)
        ensures
            r == capped_limit(self.limit, 50, 500),
            r <= 500,
            self.limit matches Some(l) ==> r == vstd::math::min(l as int, 500),
            self.limit is None ==> r == 50,
    {
        let wanted = match self.limit {
            Some(l) => l,
            None => 50,
        };
        if wanted < 500 { wanted } else { 500 }
    }
}

/// How a track upload is handled.
pub enum UploadPlan {
    /// A file exists at the given path: its features are extracted from
    /// the audio.
    AnalyzeFile,
    /// No path was given, or no file is there: the features given in the
    /// request are used.
    UseSuppliedFeatures,
}

/// Decides how an upload is handled from the path it names and whether a
/// file exists at that path.
pub fn plan_upload(file_path: &Option<String>, file_exists: bool) -> (r: UploadPlan)
    ensures
        file_path is Some && file_exists ==> r is AnalyzeFile,
        file_path is None || !file_exists ==> r is UseSuppliedFeatures,
{
    match file_path {
        Some(_) => if file_exists {
            UploadPlan::AnalyzeFile
        } else {
            UploadPlan::UseSuppliedFeatures
        },
        None => UploadPlan::UseSuppliedFeatures,
    }
}

/// Lexicographic order on index pairs.
pub open spec fn pair_lt(p: (usize, usize), q: (usize, usize)) -> bool {
    p.0 < q.0 || (p.0 == q.0 && p.1 < q.1)
}

/// Number of unordered pairs of distinct indices below `n`.
pub open spec fn pair_count(n: nat) -> nat {
    (n * (n - 1) / 2) as nat
}

/// The pairs `(a, b)` with `a < b < n`, ordered by `a`, then `b`, for the
/// rows `a < rows`.
pub open spec fn pairs_upto(n: nat, rows: nat) -> Seq<(usize, usize)>
    decreases rows,
{
    if rows == 0 {
        Seq::empty()
    } else {
        pairs_upto(n, (rows - 1) as nat) + pair_row(n, (rows - 1) as nat)
    }
}

/// The pairs `(a, b)` with `a < b < n`, in increasing `b`.
pub open spec fn pair_row(n: nat, a: nat) -> Seq<(usize, usize)> {
    if a < n {
        Seq::new((n - a - 1) as nat, |k: int| (a as usize, (a + 1 + k) as usize))
    } else {
        Seq::empty()
    }
}

/// The index pairs whose similarity is recomputed for a library of `n`
/// tracks: every pair `(i, j)` with `i < j < n`, exactly once, in
/// lexicographic order.
pub fn similarity_pairs(n: usize) -> (r: Vec<(usize, usize)>)
    requires
        pair_count(n as nat) <= usize::MAX,
    ensures
        r@.len() == pair_count(n as nat),
        forall|k: int| 0 <= k < r@.len() ==> #[trigger] r@[k].0 < r@[k].1 && r@[k].1 < n,
        forall|i: usize, j: usize| i < j < n ==> r@.contains((i, j)),
        forall|k: int, l: int| 0 <= k < l < r@.len() ==> pair_lt(#[trigger] r@[k], #[trigger] r@[l]),
{
    let mut r: Vec<(usize, usize)> = Vec::new();
    let mut i: usize = 0;
    while i < n
        invariant
            i <= n,
            r@ == pairs_upto(n as nat, i as nat),
        decreases n - i,
    {
        let mut j: usize = i + 1;
        while j < n
            invariant
                i < n,
                i + 1 <= j <= n,
                r@ == pairs_upto(n as nat, i as nat) + Seq::new(
                    (j - i - 1) as nat,
                    |k: int| (i, (i + 1 + k) as usize),
                ),
            decreases n - j,
        {
            r.push((i, j));
            assert(r@ =~= pairs_upto(n as nat, i as nat) + Seq::new(
                (j + 1 - i - 1) as nat,
                |k: int| (i, (i + 1 + k) as usize),
            ));
            j = j + 1;
        }
        assert(pairs_upto(n as nat, (i + 1) as nat) =~= pairs_upto(n as nat, i as nat) + pair_row(
            n as nat,
            i as nat,
        ));
        assert(r@ =~= pairs_upto(n as nat, (i + 1) as nat));
        i = i + 1;
    }
    proof {
        lemma_pairs_len(n as nat, n as nat);
        lemma_pairs_members(n as nat, n as nat);
        lemma_pairs_sorted(n as nat, n as nat);
        assert forall|a: usize, b: usize| a < b < n implies r@.contains((a, b)) by {
            let k = lemma_pairs_index(n as nat, n as nat, a, b);
        }
    }
    r
}

/// Rows below `rows` hold `rows * (2n - rows - 1) / 2` pairs.
pub proof fn lemma_pairs_len(n: nat, rows: nat)
    requires
        rows <= n,
    ensures
        pairs_upto(n, rows).len() * 2 == rows * (2 * n - rows - 1),
        rows == n ==> pairs_upto(n, rows).len() == pair_count(n),
    decreases rows,
{
    if rows > 0 {
        let prev = (rows - 1) as nat;
        lemma_pairs_len(n, prev);
        let before = pairs_upto(n, prev).len();
        let row = pair_row(n, prev).len();
        assert(row == n - rows);
        assert(pairs_upto(n, rows).len() == before + row);
        assert(rows * (2 * n - rows - 1) == prev * (2 * n - prev - 1) + 2 * (n - rows))
            by (nonlinear_arith)
            requires
                rows >= 1,
                rows <= n,
                prev == rows - 1,
        ;
        assert(before * 2 == prev * (2 * n - prev - 1));
        assert(pairs_upto(n, rows).len() * 2 == rows * (2 * n - rows - 1));
    } else {
        assert(rows * (2 * n - rows - 1) == 0) by (nonlinear_arith)
            requires
                rows == 0,
        ;
    }
    if rows == n {
        assert(n * (2 * n - n - 1) == n * (n - 1)) by (nonlinear_arith);
        assert(n * (n - 1) / 2 * 2 == n * (n - 1)) by {
            lemma_product_consecutive_even(n);
        }
    }
}

proof fn lemma_product_consecutive_even(n: nat)
    ensures
        (n * (n - 1)) % 2 == 0,
    decreases n,
{
    if n >= 2 {
        lemma_product_consecutive_even((n - 2) as nat);
        let m = (n - 2) as nat;
        let x = m * (m - 1);
        assert(n * (n - 1) == x + 4 * n - 6) by (nonlinear_arith)
            requires
                n >= 2,
                m == n - 2,
                x == m * (m - 1),
        ;
        assert((x + 4 * n - 6) % 2 == 0) by (nonlinear_arith)
            requires
                x % 2 == 0,
                n >= 2,
        ;
    } else {
        assert(n * (n - 1) == 0) by (nonlinear_arith)
            requires
                n <= 1,
        ;
    }
}

/// Every listed pair `(a, b)` has `a < b < n` and `a < rows`.
pub proof fn lemma_pairs_members(n: nat, rows: nat)
    requires
        rows <= n,
        n <= usize::MAX,
    ensures
        forall|k: int|
            0 <= k < pairs_upto(n, rows).len() ==> {
                let p = #[trigger] pairs_upto(n, rows)[k];
                p.0 < p.1 && p.1 < n && p.0 < rows
            },
    decreases rows,
{
    if rows > 0 {
        lemma_pairs_members(n, (rows - 1) as nat);
        let prev = pairs_upto(n, (rows - 1) as nat);
        let row = pair_row(n, (rows - 1) as nat);
        assert forall|k: int| 0 <= k < pairs_upto(n, rows).len() implies {
            let p = #[trigger] pairs_upto(n, rows)[k];
            p.0 < p.1 && p.1 < n && p.0 < rows
        } by {
            if k < prev.len() {
                assert(pairs_upto(n, rows)[k] == prev[k]);
            } else {
                assert(pairs_upto(n, rows)[k] == row[k - prev.len()]);
            }
        }
    }
}

/// The listed pairs increase strictly in lexicographic order.
pub proof fn lemma_pairs_sorted(n: nat, rows: nat)
    requires
        rows <= n,
        n <= usize::MAX,
    ensures
        forall|k: int, l: int|
            0 <= k < l < pairs_upto(n, rows).len() ==> pair_lt(
                #[trigger] pairs_upto(n, rows)[k],
                #[trigger] pairs_upto(n, rows)[l],
            ),
    decreases rows,
{
    if rows > 0 {
        lemma_pairs_sorted(n, (rows - 1) as nat);
        lemma_pairs_members(n, (rows - 1) as nat);
        let prev = pairs_upto(n, (rows - 1) as nat);
        let row = pair_row(n, (rows - 1) as nat);
        let all = pairs_upto(n, rows);
        assert forall|k: int, l: int| 0 <= k < l < all.len() implies pair_lt(
            #[trigger] all[k],
            #[trigger] all[l],
        ) by {
            if l < prev.len() {
                assert(all[k] == prev[k] && all[l] == prev[l]);
            } else if k < prev.len() {
                assert(all[k] == prev[k]);
                assert(all[l] == row[l - prev.len()]);
            } else {
                assert(all[k] == row[k - prev.len()]);
                assert(all[l] == row[l - prev.len()]);
            }
        }
    }
}

/// Each pair `(a, b)` with `a < b < n` and `a < rows` is listed.
pub proof fn lemma_pairs_index(n: nat, rows: nat, a: usize, b: usize) -> (k: int)
    requires
        rows <= n,
        n <= usize::MAX,
        a < b < n,
        a < rows,
    ensures
        0 <= k < pairs_upto(n, rows).len(),
        pairs_upto(n, rows)[k] == (a, b),
    decreases rows,
{
    let prev = pairs_upto(n, (rows - 1) as nat);
    let row = pair_row(n, (rows - 1) as nat);
    if a < rows - 1 {
        let k = lemma_pairs_index(n, (rows - 1) as nat, a, b);
        assert(pairs_upto(n, rows)[k] == prev[k]);
        k
    } else {
        let k = prev.len() + (b - a - 1);
        assert(row[b - a - 1] == (a, b));
        assert(pairs_upto(n, rows)[k] == row[b - a - 1]);
        k
    }
}

} // verus!

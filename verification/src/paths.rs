//! Path segmentation and the path rewriter.
//!
//! An inbound path is split on `/` into its non-empty segments (which
//! collapses a leading slash and any run of repeated slashes). The rewriter
//! drops a route-configured number of leading segments and appends the
//! survivors, each prefixed with `/`, to the route's upstream base address.

use vstd::prelude::*;
use vstd::string::StrSliceExecFns;
use vstd::string::StringExecFns;
use crate::config::Route;

verus! {

/// The non-empty `/`-separated segments of `p`, in order.
pub open spec fn split_segs(p: Seq<char>) -> Seq<Seq<char>>
    decreases p.len(),
{
    if p.len() == 0 {
        Seq::empty()
    } else if p[0] == '/' {
        split_segs(p.skip(1))
    } else {
        let rest = split_segs(p.skip(1));
        if p.len() > 1 && p[1] != '/' {
            seq![seq![p[0]] + rest[0]] + rest.skip(1)
        } else {
            seq![seq![p[0]]] + rest
        }
    }
}

/// Number of non-empty segments of `p`.
pub open spec fn segment_count(p: Seq<char>) -> nat {
    split_segs(p).len()
}

/// Each segment prefixed with `/`, concatenated.
pub open spec fn join_pref(segs: Seq<Seq<char>>) -> Seq<char>
    decreases segs.len(),
{
    if segs.len() == 0 {
        Seq::empty()
    } else {
        seq!['/'] + segs[0] + join_pref(segs.skip(1))
    }
}

/// The slash-collapsed form of `p`: every segment prefixed with a single `/`.
pub open spec fn normalize(p: Seq<char>) -> Seq<char> {
    join_pref(split_segs(p))
}

/// What the rewriter returns: the upstream base followed by the segments of
/// `path` that survive dropping the first `strip` of them.
pub open spec fn rewrite_spec(uri: Seq<char>, path: Seq<char>, strip: int) -> Seq<char> {
    let segs = split_segs(path);
    let start = if strip <= segs.len() { strip } else { segs.len() as int };
    uri + join_pref(segs.skip(start))
}

/// Every segment produced by `split_segs` is non-empty.
pub proof fn lemma_segs_nonempty(p: Seq<char>)
    ensures
        forall|k: int| 0 <= k < split_segs(p).len() ==> #[trigger] split_segs(p)[k].len() >= 1,
    decreases p.len(),
{
    if p.len() == 0 {
    } else if p[0] == '/' {
        lemma_segs_nonempty(p.skip(1));
        assert(split_segs(p) == split_segs(p.skip(1)));
    } else {
        lemma_segs_nonempty(p.skip(1));
        let rest = split_segs(p.skip(1));
        let s = split_segs(p);
        assert forall|k: int| 0 <= k < s.len() implies #[trigger] s[k].len() >= 1 by {
            if p.len() > 1 && p[1] != '/' {
                if k == 0 {
                    assert(s[0] == seq![p[0]] + rest[0]);
                } else {
                    assert(s[k] == rest.skip(1)[k - 1]);
                    assert(rest.skip(1)[k - 1] == rest[k]);
                }
            } else {
                if k == 0 {
                    assert(s[0] == seq![p[0]]);
                } else {
                    assert(s[k] == rest[k - 1]);
                }
            }
        }
    }
}

/// A leading slash at position `i` does not change the segments from there on.
proof fn lemma_split_skip_slash(p: Seq<char>, i: int)
    requires
        0 <= i < p.len(),
        p[i] == '/',
    ensures
        split_segs(p.skip(i)) == split_segs(p.skip(i + 1)),
{
    let q = p.skip(i);
    assert(q[0] == '/');
    assert(q.skip(1) =~= p.skip(i + 1));
}

/// A maximal run of non-slash characters `p[i..j)` is exactly the first
/// segment of the remainder starting at `i`.
proof fn lemma_split_scan(p: Seq<char>, i: int, j: int)
    requires
        0 <= i < j <= p.len(),
        forall|t: int| i <= t < j ==> p[t] != '/',
        j == p.len() || p[j] == '/',
    ensures
        split_segs(p.skip(i)) == seq![p.subrange(i, j)] + split_segs(p.skip(j)),
    decreases j - i,
{
    let q = p.skip(i);
    assert(q[0] == p[i]);
    assert(q.skip(1) =~= p.skip(i + 1));
    if i + 1 == j {
        if j == p.len() {
            assert(q.len() == 1);
            assert(split_segs(q) =~= seq![seq![q[0]]] + split_segs(q.skip(1)));
        } else {
            assert(q.len() > 1 && q[1] == p[j]);
            assert(split_segs(q) =~= seq![seq![q[0]]] + split_segs(q.skip(1)));
            lemma_split_skip_slash(p, j);
        }
        assert(seq![q[0]] =~= p.subrange(i, j));
        assert(split_segs(p.skip(i)) =~= seq![p.subrange(i, j)] + split_segs(p.skip(j)));
    } else {
        assert(q.len() > 1 && q[1] == p[i + 1] && p[i + 1] != '/');
        lemma_split_scan(p, i + 1, j);
        let rest = split_segs(p.skip(i + 1));
        assert(rest == seq![p.subrange(i + 1, j)] + split_segs(p.skip(j)));
        assert(rest[0] == p.subrange(i + 1, j));
        assert(rest.skip(1) =~= split_segs(p.skip(j)));
        assert(seq![q[0]] + rest[0] =~= p.subrange(i, j));
        assert(split_segs(p.skip(i)) =~= seq![p.subrange(i, j)] + split_segs(p.skip(j)));
    }
}

/// Appending one more segment extends the joined form by `/` and the segment.
proof fn lemma_join_push(segs: Seq<Seq<char>>, x: Seq<char>)
    ensures
        join_pref(segs.push(x)) == join_pref(segs) + seq!['/'] + x,
    decreases segs.len(),
{
    if segs.len() == 0 {
        assert(segs.push(x).skip(1) =~= Seq::<Seq<char>>::empty());
        assert(segs.push(x)[0] == x);
        assert(join_pref(segs.push(x)) == seq!['/'] + x + join_pref(Seq::<Seq<char>>::empty()));
        assert(join_pref(Seq::<Seq<char>>::empty()) == Seq::<char>::empty());
        assert(join_pref(segs) == Seq::<char>::empty());
        assert(join_pref(segs.push(x)) =~= join_pref(segs) + seq!['/'] + x);
    } else {
        assert(segs.push(x)[0] == segs[0]);
        assert(segs.push(x).skip(1) =~= segs.skip(1).push(x));
        lemma_join_push(segs.skip(1), x);
        assert(join_pref(segs.push(x)) == seq!['/'] + segs[0] + join_pref(segs.skip(1).push(x)));
        assert(join_pref(segs) == seq!['/'] + segs[0] + join_pref(segs.skip(1)));
        assert(join_pref(segs.skip(1).push(x)) == join_pref(segs.skip(1)) + seq!['/'] + x);
        assert(seq!['/'] + segs[0] + (join_pref(segs.skip(1)) + seq!['/'] + x) =~= (seq!['/']
            + segs[0] + join_pref(segs.skip(1))) + seq!['/'] + x);
        assert(join_pref(segs.push(x)) =~= join_pref(segs) + seq!['/'] + x);
    }
}

/// Splits `path` into its non-empty `/`-separated segments.
pub fn split_segments(path: &str) -> (segs: Vec<String>)
    ensures
        segs@.map_values(|s: String| s@) == split_segs(path@),
{
    let n = path.unicode_len();
    let mut out: Vec<String> = Vec::new();
    let mut i: usize = 0;
    proof {
        assert(out@.map_values(|s: String| s@) =~= Seq::<Seq<char>>::empty());
        assert(path@.skip(0) =~= path@);
        assert(Seq::<Seq<char>>::empty() + split_segs(path@) =~= split_segs(path@));
    }
    while i < n
        invariant
            n == path@.len(),
            i <= n,
            out@.map_values(|s: String| s@) + split_segs(path@.skip(i as int)) == split_segs(
                path@,
            ),
        decreases n - i,
    {
        let c = path.get_char(i);
        if c == '/' {
            proof {
                lemma_split_skip_slash(path@, i as int);
            }
            i = i + 1;
        } else {
            let mut j: usize = i + 1;
            while j < n && path.get_char(j) != '/'
                invariant
                    n == path@.len(),
                    i < j <= n,
                    forall|t: int| i <= t < j ==> path@[t] != '/',
                decreases n - j,
            {
                j = j + 1;
            }
            let seg = path.substring_char(i, j).to_owned();
            proof {
                lemma_split_scan(path@, i as int, j as int);
                assert(out@.push(seg).map_values(|s: String| s@) =~= out@.map_values(
                    |s: String| s@,
                ).push(seg@));
                assert(out@.map_values(|s: String| s@).push(seg@) + split_segs(
                    path@.skip(j as int),
                ) =~= out@.map_values(|s: String| s@) + split_segs(path@.skip(i as int)));
            }
            out.push(seg);
            i = j;
        }
    }
    proof {
        assert(path@.skip(n as int) =~= Seq::<char>::empty());
        assert(out@.map_values(|s: String| s@) + split_segs(path@.skip(n as int)) =~= out@
            .map_values(|s: String| s@));
    }
    out
}

/// Rewrites `path` for forwarding along `route`: drops the first
/// `route.strip` segments and appends the rest to the upstream base.
pub fn rewrite(path: &str, route: &Route) -> (r: String)
    ensures
        r@ == rewrite_spec(route.spec_uri(), path@, route.spec_strip() as int),
{
    let segs = split_segments(path);
    let ghost segv = segs@.map_values(|s: String| s@);
    let mut out = route.uri().to_owned();
    let start = if route.strip() <= segs.len() {
        route.strip()
    } else {
        segs.len()
    };
    let mut k = start;
    proof {
        assert(segv.subrange(start as int, k as int) =~= Seq::<Seq<char>>::empty());
        assert(out@ =~= route.spec_uri() + join_pref(segv.subrange(start as int, k as int)));
    }
    while k < segs.len()
        invariant
            start <= k <= segs.len(),
            segv == segs@.map_values(|s: String| s@),
            out@ == route.spec_uri() + join_pref(segv.subrange(start as int, k as int)),
        decreases segs.len() - k,
    {
        out.append("/");
        out.append(segs[k].as_str());
        proof {
            reveal_strlit("/");
            assert("/"@ =~= seq!['/']);
            assert(segv[k as int] == segs@[k as int]@);
            assert(segv.subrange(start as int, k + 1) =~= segv.subrange(start as int, k as int)
                .push(segv[k as int]));
            lemma_join_push(segv.subrange(start as int, k as int), segv[k as int]);
            assert(out@ =~= route.spec_uri() + join_pref(segv.subrange(start as int, k + 1)));
        }
        k = k + 1;
    }
    proof {
        assert(segv.subrange(start as int, segs@.len() as int) =~= segv.skip(start as int));
        assert(out@ =~= rewrite_spec(route.spec_uri(), path@, route.spec_strip() as int));
    }
    out
}

/// With a strip count of zero the rewritten path is the upstream base
/// followed by the slash-collapsed form of the inbound path.
pub proof fn lemma_rewrite_strip_zero(uri: Seq<char>, path: Seq<char>)
    ensures
        rewrite_spec(uri, path, 0) == uri + normalize(path),
{
    assert(split_segs(path).skip(0) =~= split_segs(path));
}

/// With a strip count at or above the segment count the rewritten path is
/// exactly the upstream base, with no path suffix.
pub proof fn lemma_rewrite_strip_all(uri: Seq<char>, path: Seq<char>, strip: int)
    requires
        strip >= segment_count(path),
    ensures
        rewrite_spec(uri, path, strip) == uri,
{
    let segs = split_segs(path);
    if strip <= segs.len() {
        assert(segs.skip(strip) =~= Seq::<Seq<char>>::empty());
    } else {
        assert(segs.skip(segs.len() as int) =~= Seq::<Seq<char>>::empty());
    }
    assert(uri + join_pref(Seq::<Seq<char>>::empty()) =~= uri);
}

} // verus!

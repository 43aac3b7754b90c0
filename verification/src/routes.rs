//! The route table: path-pattern predicates, matching, and specificity.
//!
//! A predicate is a path pattern of literal segments, single-segment named
//! captures written `:name`, and a wildcard written `*name` that consumes
//! every remaining segment. `resolve` returns the most specific matching
//! route: more literal segments outrank fewer; with equal literal counts a
//! named capture outranks a wildcard; full ties go to the route inserted
//! first.

use vstd::prelude::*;
use vstd::string::StrSliceExecFns;
use vstd::string::StringExecFns;
use crate::config::Route;
use crate::paths::lemma_segs_nonempty;
use crate::paths::split_segments;
use crate::paths::split_segs;

verus! {

/// One segment of a parsed predicate.
pub enum PatSeg {
    Literal(String),
    Param(String),
    Wildcard(String),
}

/// The mathematical form of a pattern segment.
pub enum PatSegV {
    Literal(Seq<char>),
    Param(Seq<char>),
    Wildcard(Seq<char>),
}

impl View for PatSeg {
    type V = PatSegV;

    closed spec fn view(&self) -> PatSegV {
        match self {
            PatSeg::Literal(s) => PatSegV::Literal(s@),
            PatSeg::Param(s) => PatSegV::Param(s@),
            PatSeg::Wildcard(s) => PatSegV::Wildcard(s@),
        }
    }
}

/// How one predicate segment is read: `:name` is a named capture, `*name`
/// a wildcard, anything else a literal.
pub open spec fn classify(s: Seq<char>) -> PatSegV {
    if s.len() > 0 && s[0] == ':' {
        PatSegV::Param(s.skip(1))
    } else if s.len() > 0 && s[0] == '*' {
        PatSegV::Wildcard(s.skip(1))
    } else {
        PatSegV::Literal(s)
    }
}

/// The pattern a predicate string denotes.
pub open spec fn pattern_of(pred: Seq<char>) -> Seq<PatSegV> {
    split_segs(pred).map_values(|s: Seq<char>| classify(s))
}

/// Whether a pattern matches a segment sequence. A literal must equal its
/// segment, a named capture consumes exactly one segment, and a wildcard
/// consumes all remaining segments.
pub open spec fn pat_matches(pat: Seq<PatSegV>, segs: Seq<Seq<char>>) -> bool
    decreases pat.len(),
{
    if pat.len() == 0 {
        segs.len() == 0
    } else {
        match pat[0] {
            PatSegV::Wildcard(_) => true,
            PatSegV::Param(_) => segs.len() > 0 && pat_matches(pat.skip(1), segs.skip(1)),
            PatSegV::Literal(l) => segs.len() > 0 && segs[0] == l && pat_matches(
                pat.skip(1),
                segs.skip(1),
            ),
        }
    }
}

/// Whether the route predicate `pred` matches the inbound path `path`.
pub open spec fn predicate_matches(pred: Seq<char>, path: Seq<char>) -> bool {
    pat_matches(pattern_of(pred), split_segs(path))
}

/// Number of literal segments of a pattern.
pub open spec fn lit_count(pat: Seq<PatSegV>) -> nat
    decreases pat.len(),
{
    if pat.len() == 0 {
        0
    } else {
        (match pat[0] {
            PatSegV::Literal(_) => 1 as nat,
            _ => 0 as nat,
        }) + lit_count(pat.skip(1))
    }
}

/// Number of named single-segment captures of a pattern.
pub open spec fn param_count(pat: Seq<PatSegV>) -> nat
    decreases pat.len(),
{
    if pat.len() == 0 {
        0
    } else {
        (match pat[0] {
            PatSegV::Param(_) => 1 as nat,
            _ => 0 as nat,
        }) + param_count(pat.skip(1))
    }
}

/// Strict specificity order between patterns: more literal segments win;
/// with equal literal counts, more named captures win.
pub open spec fn more_specific(a: Seq<PatSegV>, b: Seq<PatSegV>) -> bool {
    ||| lit_count(a) > lit_count(b)
    ||| (lit_count(a) == lit_count(b) && param_count(a) > param_count(b))
}

/// The remaining segments joined with `/` between them, as a wildcard
/// capture records them.
pub open spec fn join_sep(segs: Seq<Seq<char>>) -> Seq<char>
    decreases segs.len(),
{
    if segs.len() == 0 {
        Seq::empty()
    } else if segs.len() == 1 {
        segs[0]
    } else {
        segs[0] + seq!['/'] + join_sep(segs.skip(1))
    }
}

/// The named captures a matching pattern extracts from a segment sequence:
/// each capture's name paired with its segment, a wildcard's name paired
/// with the joined remainder.
pub open spec fn params_of(pat: Seq<PatSegV>, segs: Seq<Seq<char>>) -> Seq<(Seq<char>, Seq<char>)>
    decreases pat.len(),
{
    if pat.len() == 0 {
        Seq::empty()
    } else {
        match pat[0] {
            PatSegV::Wildcard(n) => seq![(n, join_sep(segs))],
            PatSegV::Param(n) => seq![(n, segs[0])] + params_of(pat.skip(1), segs.skip(1)),
            PatSegV::Literal(_) => params_of(pat.skip(1), segs.skip(1)),
        }
    }
}

struct TableEntry {
    route: Route,
    pattern: Vec<PatSeg>,
    lits: usize,
    params: usize,
}

/// The immutable lookup structure: all routes with their parsed patterns
/// and precomputed specificity counts, in insertion order.
pub struct RouteTable {
    entries: Vec<TableEntry>,
}

/// A successful lookup: the index of the winning route in the insertion
/// order, and the named captures it extracted.
pub struct Matched {
    pub route_index: usize,
    pub params: Vec<(String, String)>,
}

impl RouteTable {
    /// The routes of the table, in insertion order.
    pub closed spec fn spec_routes(&self) -> Seq<Route> {
        self.entries@.map_values(|e: TableEntry| e.route)
    }

    /// The parsed pattern and counts of each entry agree with its predicate.
    pub closed spec fn wf(&self) -> bool {
        forall|i: int|
            0 <= i < self.entries@.len() ==> {
                let e = #[trigger] self.entries@[i];
                &&& e.pattern@.map_values(|p: PatSeg| p@) == pattern_of(e.route.spec_predicate())
                &&& e.lits == lit_count(pattern_of(e.route.spec_predicate()))
                &&& e.params == param_count(pattern_of(e.route.spec_predicate()))
            }
    }

    /// The pattern of the route at `i`.
    pub open spec fn spec_pattern(&self, i: int) -> Seq<PatSegV> {
        pattern_of(self.spec_routes()[i].spec_predicate())
    }

    /// Whether the route at `i` matches `path`.
    pub open spec fn spec_matches(&self, i: int, path: Seq<char>) -> bool {
        predicate_matches(self.spec_routes()[i].spec_predicate(), path)
    }

    pub fn len(&self) -> (n: usize)
        ensures
            n == self.spec_routes().len(),
    {
        self.entries.len()
    }

    /// The route stored at `i`, in insertion order.
    pub fn route(&self, i: usize) -> (r: &Route)
        requires
            i < self.spec_routes().len(),
        ensures
            *r == self.spec_routes()[i as int],
    {
        assert(self.spec_routes()[i as int] == self.entries@[i as int].route);
        &self.entries[i].route
    }

    /// Builds the table once, from the configured routes in order.
    pub fn build(routes: Vec<Route>) -> (t: RouteTable)
        ensures
            t.wf(),
            t.spec_routes() == routes@,
    {
        let ghost orig = routes@;
        let mut routes = routes;
        let mut entries: Vec<TableEntry> = Vec::new();
        proof {
            assert(routes@ =~= orig.skip(0));
            assert(entries@.map_values(|e: TableEntry| e.route) =~= orig.take(0));
        }
        while routes.len() > 0
            invariant
                entries@.len() + routes@.len() == orig.len(),
                routes@ == orig.skip(entries@.len() as int),
                entries@.map_values(|e: TableEntry| e.route) == orig.take(entries@.len() as int),
                forall|i: int|
                    0 <= i < entries@.len() ==> {
                        let e = #[trigger] entries@[i];
                        &&& e.pattern@.map_values(|p: PatSeg| p@) == pattern_of(
                            e.route.spec_predicate(),
                        )
                        &&& e.lits == lit_count(pattern_of(e.route.spec_predicate()))
                        &&& e.params == param_count(pattern_of(e.route.spec_predicate()))
                    },
            decreases routes@.len(),
        {
            let ghost k = entries@.len() as int;
            let route = routes.remove(0);
            proof {
                assert(route == orig.skip(k)[0]);
                assert(orig.skip(k)[0] == orig[k]);
                assert(orig.skip(k).remove(0) =~= orig.skip(k + 1));
            }
            let pattern = parse_pattern(route.predicate());
            let (lits, params) = count_pattern(&pattern);
            let entry = TableEntry { route, pattern, lits, params };
            entries.push(entry);
            proof {
                assert(entries@.map_values(|e: TableEntry| e.route) =~= orig.take(k + 1));
            }
        }
        proof {
            assert(orig.take(orig.len() as int) =~= orig);
        }
        let t = RouteTable { entries };
        t
    }

    /// Looks an inbound path up. Returns the most specific matching route
    /// (ties going to the earliest inserted) with its captures, or `None`
    /// when no predicate matches; absence of a match is a normal outcome.
    pub fn resolve(&self, path: &str) -> (r: Option<Matched>)
        requires
            self.wf(),
        ensures
            match r {
                None => forall|j: int|
                    0 <= j < self.spec_routes().len() ==> !self.spec_matches(j, path@),
                Some(m) => {
                    &&& m.route_index < self.spec_routes().len()
                    &&& self.spec_matches(m.route_index as int, path@)
                    &&& forall|j: int|
                        0 <= j < self.spec_routes().len() && self.spec_matches(j, path@)
                            ==> !more_specific(
                            self.spec_pattern(j),
                            self.spec_pattern(m.route_index as int),
                        )
                    &&& forall|j: int|
                        0 <= j < m.route_index as int && self.spec_matches(j, path@)
                            ==> more_specific(self.spec_pattern(m.route_index as int),
                            self.spec_pattern(j),
                        )
                    &&& m.params@.map_values(|h: (String, String)| (h.0@, h.1@)) == params_of(
                        self.spec_pattern(m.route_index as int),
                        split_segs(path@),
                    )
                },
            },
    {
        let segs = split_segments(path);
        let n = self.entries.len();
        let mut best: Option<usize> = None;
        let mut idx: usize = 0;
        while idx < n
            invariant
                self.wf(),
                n == self.entries@.len(),
                idx <= n,
                segs@.map_values(|s: String| s@) == split_segs(path@),
                (match best {
                    None => forall|j: int| 0 <= j < idx ==> !self.spec_matches(j, path@),
                    Some(b) => {
                        &&& (b as int) < idx
                        &&& self.spec_matches(b as int, path@)
                        &&& forall|j: int|
                            0 <= j < idx && self.spec_matches(j, path@) ==> !more_specific(
                                self.spec_pattern(j),
                                self.spec_pattern(b as int),
                            )
                        &&& forall|j: int|
                            0 <= j < b as int && self.spec_matches(j, path@) ==> more_specific(
                                self.spec_pattern(b as int),
                                self.spec_pattern(j),
                            )
                    },
                }),
            decreases n - idx,
        {
            proof {
                assert(self.spec_routes()[idx as int] == self.entries@[idx as int].route);
            }
            if match_pattern(&self.entries[idx].pattern, &segs) {
                match best {
                    None => {
                        best = Some(idx);
                    },
                    Some(b) => {
                        proof {
                            assert(self.spec_routes()[b as int] == self.entries@[b as int].route);
                        }
                        let eb_lits = self.entries[b].lits;
                        let eb_params = self.entries[b].params;
                        let ei_lits = self.entries[idx].lits;
                        let ei_params = self.entries[idx].params;
                        if ei_lits > eb_lits || (ei_lits == eb_lits && ei_params > eb_params) {
                            best = Some(idx);
                        }
                    },
                }
            }
            idx = idx + 1;
        }
        match best {
            None => None,
            Some(b) => {
                proof {
                    assert(self.spec_routes()[b as int] == self.entries@[b as int].route);
                }
                let params = extract_params(&self.entries[b].pattern, &segs);
                Some(Matched { route_index: b, params })
            },
        }
    }
}

/// Resolution is deterministic: the contract of `resolve` pins the chosen
/// route uniquely. Any two indices that each match the path, are unbeaten
/// in specificity, and strictly beat every earlier match are equal, so
/// repeated lookups on an unchanged table return the same route.
pub proof fn lemma_resolution_deterministic(t: &RouteTable, path: Seq<char>, i1: int, i2: int)
    requires
        0 <= i1 < t.spec_routes().len(),
        0 <= i2 < t.spec_routes().len(),
        t.spec_matches(i1, path),
        t.spec_matches(i2, path),
        forall|j: int|
            0 <= j < t.spec_routes().len() && t.spec_matches(j, path) ==> !more_specific(
                t.spec_pattern(j),
                t.spec_pattern(i1),
            ),
        forall|j: int|
            0 <= j < i1 && t.spec_matches(j, path) ==> more_specific(
                t.spec_pattern(i1),
                t.spec_pattern(j),
            ),
        forall|j: int|
            0 <= j < t.spec_routes().len() && t.spec_matches(j, path) ==> !more_specific(
                t.spec_pattern(j),
                t.spec_pattern(i2),
            ),
        forall|j: int|
            0 <= j < i2 && t.spec_matches(j, path) ==> more_specific(
                t.spec_pattern(i2),
                t.spec_pattern(j),
            ),
    ensures
        i1 == i2,
{
    if i1 < i2 {
        assert(more_specific(t.spec_pattern(i2), t.spec_pattern(i1)));
        assert(!more_specific(t.spec_pattern(i2), t.spec_pattern(i1)));
    }
    if i2 < i1 {
        assert(more_specific(t.spec_pattern(i1), t.spec_pattern(i2)));
        assert(!more_specific(t.spec_pattern(i1), t.spec_pattern(i2)));
    }
}

/// Parses a predicate string into its pattern segments.
fn parse_pattern(pred: &str) -> (pat: Vec<PatSeg>)
    ensures
        pat@.map_values(|p: PatSeg| p@) == pattern_of(pred@),
{
    let segs = split_segments(pred);
    let ghost segv = segs@.map_values(|s: String| s@);
    proof {
        lemma_segs_nonempty(pred@);
    }
    let mut pat: Vec<PatSeg> = Vec::new();
    let mut k: usize = 0;
    proof {
        assert(pat@.map_values(|p: PatSeg| p@) =~= segv.take(0).map_values(
            |s: Seq<char>| classify(s),
        ));
    }
    while k < segs.len()
        invariant
            k <= segs@.len(),
            segv == segs@.map_values(|s: String| s@),
            segv == split_segs(pred@),
            forall|t: int| 0 <= t < segv.len() ==> #[trigger] segv[t].len() >= 1,
            pat@.map_values(|p: PatSeg| p@) == segv.take(k as int).map_values(
                |s: Seq<char>| classify(s),
            ),
        decreases segs@.len() - k,
    {
        let s = &segs[k];
        proof {
            assert(segv[k as int] == s@);
            assert(s@.len() >= 1);
        }
        let len = s.as_str().unicode_len();
        let c = s.as_str().get_char(0);
        let seg: PatSeg = if c == ':' {
            let name = s.as_str().substring_char(1, len).to_owned();
            proof {
                assert(name@ =~= s@.skip(1));
            }
            PatSeg::Param(name)
        } else if c == '*' {
            let name = s.as_str().substring_char(1, len).to_owned();
            proof {
                assert(name@ =~= s@.skip(1));
            }
            PatSeg::Wildcard(name)
        } else {
            PatSeg::Literal(s.clone())
        };
        proof {
            assert(seg@ == classify(segv[k as int]));
            assert(segv.take(k + 1) =~= segv.take(k as int).push(segv[k as int]));
            let lhs = pat@.push(seg).map_values(|p: PatSeg| p@);
            let rhs = segv.take(k + 1).map_values(|s: Seq<char>| classify(s));
            assert(pat@.map_values(|p: PatSeg| p@).len() == pat@.len());
            assert(segv.take(k as int).map_values(|s: Seq<char>| classify(s)).len() == k);
            assert(pat@.len() == k);
            assert forall|t: int| 0 <= t < lhs.len() implies lhs[t] == rhs[t] by {
                if t < k {
                    assert(pat@.push(seg)[t] == pat@[t]);
                    assert(lhs[t] == pat@.map_values(|p: PatSeg| p@)[t]);
                    assert(segv.take(k as int).push(segv[k as int])[t] == segv.take(k as int)[t]);
                    assert(rhs[t] == segv.take(k as int).map_values(|s: Seq<char>| classify(s))[t]);
                } else {
                    assert(pat@.push(seg)[t] == seg);
                    assert(segv.take(k as int).push(segv[k as int])[t] == segv[k as int]);
                }
            }
            assert(lhs =~= rhs);
        }
        pat.push(seg);
        k = k + 1;
    }
    proof {
        assert(segv.take(segv.len() as int) =~= segv);
    }
    pat
}

/// Counts the literal and named-capture segments of a parsed pattern.
fn count_pattern(pat: &Vec<PatSeg>) -> (c: (usize, usize))
    ensures
        c.0 == lit_count(pat@.map_values(|p: PatSeg| p@)),
        c.1 == param_count(pat@.map_values(|p: PatSeg| p@)),
{
    let ghost pv = pat@.map_values(|p: PatSeg| p@);
    let mut lits: usize = 0;
    let mut params: usize = 0;
    let mut k: usize = 0;
    proof {
        assert(pv.skip(0) =~= pv);
    }
    while k < pat.len()
        invariant
            k <= pat@.len(),
            pv == pat@.map_values(|p: PatSeg| p@),
            lits <= k,
            params <= k,
            lit_count(pv) == lits + lit_count(pv.skip(k as int)),
            param_count(pv) == params + param_count(pv.skip(k as int)),
        decreases pat@.len() - k,
    {
        proof {
            assert(pv.skip(k as int)[0] == pv[k as int]);
            assert(pv.skip(k as int).skip(1) =~= pv.skip(k + 1));
            assert(pv[k as int] == pat@[k as int]@);
        }
        match &pat[k] {
            PatSeg::Literal(_) => {
                lits = lits + 1;
            },
            PatSeg::Param(_) => {
                params = params + 1;
            },
            PatSeg::Wildcard(_) => {
            },
        }
        k = k + 1;
    }
    proof {
        assert(pv.skip(pv.len() as int) =~= Seq::<PatSegV>::empty());
    }
    (lits, params)
}

/// Tests a parsed pattern against the split inbound path.
fn match_pattern(pat: &Vec<PatSeg>, segs: &Vec<String>) -> (r: bool)
    ensures
        r == pat_matches(
            pat@.map_values(|p: PatSeg| p@),
            segs@.map_values(|s: String| s@),
        ),
{
    let ghost pv = pat@.map_values(|p: PatSeg| p@);
    let ghost sv = segs@.map_values(|s: String| s@);
    let mut k: usize = 0;
    proof {
        assert(pv.skip(0) =~= pv);
        assert(sv.skip(0) =~= sv);
    }
    while k < pat.len()
        invariant
            k <= pat@.len(),
            k <= segs@.len(),
            pv == pat@.map_values(|p: PatSeg| p@),
            sv == segs@.map_values(|s: String| s@),
            pat_matches(pv, sv) == pat_matches(pv.skip(k as int), sv.skip(k as int)),
        decreases pat@.len() - k,
    {
        proof {
            assert(pv.skip(k as int)[0] == pv[k as int]);
            assert(pv.skip(k as int).skip(1) =~= pv.skip(k + 1));
            assert(sv.skip(k as int).len() == sv.len() - k);
            assert(pv[k as int] == pat@[k as int]@);
        }
        match &pat[k] {
            PatSeg::Wildcard(_) => {
                return true;
            },
            PatSeg::Param(_) => {
                if k >= segs.len() {
                    return false;
                }
                proof {
                    assert(sv.skip(k as int).skip(1) =~= sv.skip(k + 1));
                }
            },
            PatSeg::Literal(l) => {
                if k >= segs.len() {
                    return false;
                }
                proof {
                    assert(sv.skip(k as int)[0] == sv[k as int]);
                    assert(sv[k as int] == segs@[k as int]@);
                }
                if !l.eq(&segs[k]) {
                    return false;
                }
                proof {
                    assert(sv.skip(k as int).skip(1) =~= sv.skip(k + 1));
                }
            },
        }
        k = k + 1;
    }
    proof {
        assert(pv.skip(k as int) =~= Seq::<PatSegV>::empty());
        assert(sv.skip(k as int).len() == sv.len() - k);
    }
    segs.len() == k
}

/// Joins the segments from `from` on with `/` between them.
fn join_remaining(segs: &Vec<String>, from: usize) -> (r: String)
    requires
        from <= segs@.len(),
    ensures
        r@ == join_sep(segs@.map_values(|s: String| s@).skip(from as int)),
{
    let ghost sv = segs@.map_values(|s: String| s@);
    if from >= segs.len() {
        proof {
            assert(sv.skip(from as int) =~= Seq::<Seq<char>>::empty());
        }
        return String::new();
    }
    let mut out = segs[from].clone();
    let mut k: usize = from + 1;
    proof {
        assert(out@ == sv[from as int]);
    }
    while k < segs.len()
        invariant
            from < k <= segs@.len(),
            sv == segs@.map_values(|s: String| s@),
            out@ == join_sep(sv.subrange(from as int, k as int)),
        decreases segs@.len() - k,
    {
        proof {
            assert(sv.subrange(from as int, k as int).len() == k - from);
            if k == from + 1 {
                assert(sv.subrange(from as int, k as int) =~= seq![sv[from as int]]);
                assert(join_sep(sv.subrange(from as int, k as int)) == sv[from as int]);
            }
        }
        out.append("/");
        out.append(segs[k].as_str());
        proof {
            reveal_strlit("/");
            assert("/"@ =~= seq!['/']);
            assert(sv[k as int] == segs@[k as int]@);
            lemma_join_sep_push(sv.subrange(from as int, k as int), sv[k as int]);
            assert(sv.subrange(from as int, k + 1) =~= sv.subrange(from as int, k as int).push(
                sv[k as int],
            ));
            assert(out@ =~= join_sep(sv.subrange(from as int, k + 1)));
        }
        k = k + 1;
    }
    proof {
        assert(sv.subrange(from as int, sv.len() as int) =~= sv.skip(from as int));
    }
    out
}

/// Appending a segment to a non-empty run extends the joined form by `/`
/// and the segment.
proof fn lemma_join_sep_push(segs: Seq<Seq<char>>, x: Seq<char>)
    requires
        segs.len() >= 1,
    ensures
        join_sep(segs.push(x)) == join_sep(segs) + seq!['/'] + x,
    decreases segs.len(),
{
    if segs.len() == 1 {
        assert(segs.push(x)[0] == segs[0]);
        assert(segs.push(x).skip(1) =~= seq![x]);
        assert(join_sep(seq![x]) == x);
        assert(join_sep(segs.push(x)) == segs[0] + seq!['/'] + x);
        assert(join_sep(segs) == segs[0]);
    } else {
        assert(segs.push(x)[0] == segs[0]);
        assert(segs.push(x).skip(1) =~= segs.skip(1).push(x));
        lemma_join_sep_push(segs.skip(1), x);
        assert(join_sep(segs.push(x)) == segs[0] + seq!['/'] + join_sep(segs.skip(1).push(x)));
        assert(join_sep(segs) == segs[0] + seq!['/'] + join_sep(segs.skip(1)));
        assert(segs[0] + seq!['/'] + (join_sep(segs.skip(1)) + seq!['/'] + x) =~= (segs[0]
            + seq!['/'] + join_sep(segs.skip(1))) + seq!['/'] + x);
        assert(join_sep(segs.push(x)) =~= join_sep(segs) + seq!['/'] + x);
    }
}

/// Extracts the named captures of a pattern that matches the split path.
fn extract_params(pat: &Vec<PatSeg>, segs: &Vec<String>) -> (ps: Vec<(String, String)>)
    requires
        pat_matches(
            pat@.map_values(|p: PatSeg| p@),
            segs@.map_values(|s: String| s@),
        ),
    ensures
        ps@.map_values(|h: (String, String)| (h.0@, h.1@)) == params_of(
            pat@.map_values(|p: PatSeg| p@),
            segs@.map_values(|s: String| s@),
        ),
{
    let ghost pv = pat@.map_values(|p: PatSeg| p@);
    let ghost sv = segs@.map_values(|s: String| s@);
    let mut out: Vec<(String, String)> = Vec::new();
    let mut k: usize = 0;
    proof {
        assert(pv.skip(0) =~= pv);
        assert(sv.skip(0) =~= sv);
        assert(out@.map_values(|h: (String, String)| (h.0@, h.1@)) =~= Seq::<(
            Seq<char>,
            Seq<char>,
        )>::empty());
        assert(Seq::<(Seq<char>, Seq<char>)>::empty() + params_of(pv, sv) =~= params_of(pv, sv));
    }
    while k < pat.len()
        invariant
            k <= pat@.len(),
            k <= segs@.len(),
            pv == pat@.map_values(|p: PatSeg| p@),
            sv == segs@.map_values(|s: String| s@),
            pat_matches(pv.skip(k as int), sv.skip(k as int)),
            params_of(pv, sv) == out@.map_values(|h: (String, String)| (h.0@, h.1@)) + params_of(
                pv.skip(k as int),
                sv.skip(k as int),
            ),
        decreases pat@.len() - k,
    {
        let ghost om = out@.map_values(|h: (String, String)| (h.0@, h.1@));
        proof {
            assert(pv.skip(k as int)[0] == pv[k as int]);
            assert(pv.skip(k as int).skip(1) =~= pv.skip(k + 1));
            assert(pv[k as int] == pat@[k as int]@);
            assert(sv.skip(k as int).len() == sv.len() - k);
        }
        match &pat[k] {
            PatSeg::Wildcard(name) => {
                let joined = join_remaining(segs, k);
                let pair = (name.clone(), joined);
                proof {
                    assert(params_of(pv.skip(k as int), sv.skip(k as int)) =~= seq![
                        (name@, join_sep(sv.skip(k as int))),
                    ]);
                    assert(out@.push(pair).map_values(|h: (String, String)| (h.0@, h.1@)) =~= om
                        .push((name@, join_sep(sv.skip(k as int)))));
                    assert(om.push((name@, join_sep(sv.skip(k as int)))) =~= om + params_of(
                        pv.skip(k as int),
                        sv.skip(k as int),
                    ));
                }
                out.push(pair);
                return out;
            },
            PatSeg::Param(name) => {
                proof {
                    assert(sv.skip(k as int).len() > 0);
                    assert(sv.skip(k as int).skip(1) =~= sv.skip(k + 1));
                    assert(sv.skip(k as int)[0] == sv[k as int]);
                    assert(sv[k as int] == segs@[k as int]@);
                }
                let pair = (name.clone(), segs[k].clone());
                proof {
                    assert(params_of(pv.skip(k as int), sv.skip(k as int)) =~= seq![
                        (name@, sv[k as int]),
                    ] + params_of(pv.skip(k + 1), sv.skip(k + 1)));
                    assert(out@.push(pair).map_values(|h: (String, String)| (h.0@, h.1@)) =~= om
                        .push((name@, sv[k as int])));
                    assert(om.push((name@, sv[k as int])) + params_of(pv.skip(k + 1), sv.skip(k + 1))
                        =~= om + params_of(pv.skip(k as int), sv.skip(k as int)));
                }
                out.push(pair);
            },
            PatSeg::Literal(_) => {
                proof {
                    assert(sv.skip(k as int).len() > 0);
                    assert(sv.skip(k as int).skip(1) =~= sv.skip(k + 1));
                    assert(sv.skip(k as int)[0] == sv[k as int]);
                }
            },
        }
        k = k + 1;
    }
    proof {
        assert(pv.skip(k as int) =~= Seq::<PatSegV>::empty());
        assert(out@.map_values(|h: (String, String)| (h.0@, h.1@)) + Seq::<(
            Seq<char>,
            Seq<char>,
        )>::empty() =~= out@.map_values(|h: (String, String)| (h.0@, h.1@)));
    }
    out
}

} // verus!

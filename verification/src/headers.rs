//! The hop-by-hop header filter.
//!
//! Before a request is forwarded, every header whose name case-insensitively
//! equals one of a fixed set of connection-scoped names is removed. All other
//! headers, duplicates included, pass through unchanged and in order.

use vstd::prelude::*;
use vstd::string::StrSliceExecFns;

verus! {

/// Lowercases one ASCII letter; every other character is unchanged.
pub open spec fn lower_char(c: char) -> char {
    if 65 <= c as int && c as int <= 90 {
        ((c as int) + 32) as char
    } else {
        c
    }
}

/// Character-wise ASCII lowercasing.
pub open spec fn lower_seq(s: Seq<char>) -> Seq<char> {
    s.map_values(|c: char| lower_char(c))
}

/// Whether `name` is one of the hop-by-hop header names the proxy removes,
/// compared case-insensitively.
pub open spec fn denied_name(name: Seq<char>) -> bool {
    ||| lower_seq(name) == "connection"@
    ||| lower_seq(name) == "keep-alive"@
    ||| lower_seq(name) == "transfer-encoding"@
    ||| lower_seq(name) == "te"@
    ||| lower_seq(name) == "trailer"@
    ||| lower_seq(name) == "proxy-authorization"@
    ||| lower_seq(name) == "proxy-authenticate"@
    ||| lower_seq(name) == "x-application-context"@
    ||| lower_seq(name) == "upgrade"@
    ||| lower_seq(name) == "host"@
}

/// The headers that survive filtering: exactly those whose name is not
/// denied, kept in their original order.
pub open spec fn filter_spec(hs: Seq<(String, String)>) -> Seq<(String, String)>
    decreases hs.len(),
{
    if hs.len() == 0 {
        Seq::empty()
    } else {
        let rest = filter_spec(hs.drop_last());
        if denied_name(hs.last().0@) {
            rest
        } else {
            rest.push(hs.last())
        }
    }
}

proof fn lemma_u32_to_u8_exact(u: u32)
    requires
        u <= 255,
    ensures
        (u as u8) as u32 == u,
{
    assert((u as u8) as u32 == u) by (bit_vector)
        requires
            u <= 255,
    ;
}

fn lower_char_x(c: char) -> (r: char)
    ensures
        r == lower_char(c),
{
    let u = c as u32;
    if 65 <= u && u <= 90 {
        proof {
            lemma_u32_to_u8_exact((u + 32) as u32);
        }
        ((u + 32) as u8) as char
    } else {
        c
    }
}

/// Whether the lowercased form of `name` is exactly `target` (which is
/// expected to already be lowercase).
fn eq_lower(name: &str, target: &str) -> (r: bool)
    ensures
        r == (lower_seq(name@) == target@),
{
    let n = name.unicode_len();
    let m = target.unicode_len();
    if n != m {
        proof {
            assert(lower_seq(name@).len() == name@.len());
        }
        return false;
    }
    let mut i: usize = 0;
    while i < n
        invariant
            n == name@.len(),
            n == target@.len(),
            i <= n,
            forall|t: int| 0 <= t < i ==> lower_char(name@[t]) == target@[t],
        decreases n - i,
    {
        let c = lower_char_x(name.get_char(i));
        let d = target.get_char(i);
        if c != d {
            proof {
                assert(lower_seq(name@)[i as int] == lower_char(name@[i as int]));
            }
            return false;
        }
        i = i + 1;
    }
    proof {
        assert(lower_seq(name@) =~= target@);
    }
    true
}

/// Whether the proxy removes a header named `name` before forwarding.
pub fn is_denied_name(name: &str) -> (r: bool)
    ensures
        r == denied_name(name@),
{
    eq_lower(name, "connection") || eq_lower(name, "keep-alive") || eq_lower(
        name,
        "transfer-encoding",
    ) || eq_lower(name, "te") || eq_lower(name, "trailer") || eq_lower(name, "proxy-authorization")
        || eq_lower(name, "proxy-authenticate") || eq_lower(name, "x-application-context")
        || eq_lower(name, "upgrade") || eq_lower(name, "host")
}

/// Removes every hop-by-hop header; all others pass through in order.
pub fn filter(headers: &Vec<(String, String)>) -> (r: Vec<(String, String)>)
    ensures
        r@ == filter_spec(headers@),
{
    let mut out: Vec<(String, String)> = Vec::new();
    let mut i: usize = 0;
    proof {
        assert(headers@.take(0) =~= Seq::<(String, String)>::empty());
    }
    while i < headers.len()
        invariant
            i <= headers@.len(),
            out@ == filter_spec(headers@.take(i as int)),
        decreases headers@.len() - i,
    {
        proof {
            assert(headers@.take(i + 1).drop_last() =~= headers@.take(i as int));
            assert(headers@.take(i + 1).last() == headers@[i as int]);
        }
        let name = headers[i].0.clone();
        let value = headers[i].1.clone();
        if !is_denied_name(name.as_str()) {
            out.push((name, value));
        }
        i = i + 1;
    }
    proof {
        assert(headers@.take(headers@.len() as int) =~= headers@);
    }
    out
}

/// No header that survives filtering has a denied name, and the survivors
/// are exactly the headers with allowed names, in their original order.
pub proof fn lemma_filter_denied_absent(hs: Seq<(String, String)>)
    ensures
        forall|k: int|
            0 <= k < filter_spec(hs).len() ==> !denied_name(#[trigger] filter_spec(hs)[k].0@),
    decreases hs.len(),
{
    if hs.len() > 0 {
        lemma_filter_denied_absent(hs.drop_last());
        let rest = filter_spec(hs.drop_last());
        if !denied_name(hs.last().0@) {
            assert forall|k: int|
                0 <= k < filter_spec(hs).len() implies !denied_name(
                #[trigger] filter_spec(hs)[k].0@,
            ) by {
                if k < rest.len() {
                    assert(filter_spec(hs)[k] == rest[k]);
                } else {
                    assert(filter_spec(hs)[k] == hs.last());
                }
            }
        }
    }
}

/// A header sequence in which no name is denied passes through unchanged,
/// duplicates included, in its original order.
pub proof fn lemma_filter_all_kept(hs: Seq<(String, String)>)
    requires
        forall|k: int| 0 <= k < hs.len() ==> !denied_name(#[trigger] hs[k].0@),
    ensures
        filter_spec(hs) == hs,
    decreases hs.len(),
{
    if hs.len() > 0 {
        assert(forall|k: int|
            0 <= k < hs.drop_last().len() ==> !denied_name(#[trigger] hs.drop_last()[k].0@));
        lemma_filter_all_kept(hs.drop_last());
        assert(filter_spec(hs) =~= hs.drop_last().push(hs.last()));
        assert(hs.drop_last().push(hs.last()) =~= hs);
    }
}

/// Filtering is idempotent: applying the filter twice yields the same
/// headers as applying it once.
pub proof fn lemma_filter_idempotent(hs: Seq<(String, String)>)
    ensures
        filter_spec(filter_spec(hs)) == filter_spec(hs),
{
    lemma_filter_denied_absent(hs);
    lemma_filter_all_kept(filter_spec(hs));
}

} // verus!

//! Cutting a list of names into bulk requests.
//!
//! Each request carries at most [`API_CHUNKS`] names; the requests are cut
//! from consecutive runs of the list, in order. The requests of one list
//! may all be in flight at once and complete in any order: each outcome is
//! recorded for its own chunk alone (see [`crate::Db::apply_genders`]).

use vstd::prelude::*;

use crate::api::API_CHUNKS;

verus! {

/// Number of bulk requests for `n` names: `ceil(n / API_CHUNKS)`.
pub open spec fn chunk_count(n: nat) -> nat {
    ((n + API_CHUNKS - 1) / (API_CHUNKS as int)) as nat
}

/// The names of request `c`: the run that starts at `c * API_CHUNKS` and
/// holds at most `API_CHUNKS` names.
pub open spec fn chunk_at<A>(s: Seq<A>, c: int) -> Seq<A> {
    let start = c * API_CHUNKS;
    let end = if start + API_CHUNKS < s.len() {
        start + API_CHUNKS
    } else {
        s.len() as int
    };
    s.subrange(start, end)
}

/// All the requests for a list of names.
pub open spec fn chunks_of<A>(s: Seq<A>) -> Seq<Seq<A>> {
    Seq::new(chunk_count(s.len()), |c: int| chunk_at(s, c))
}

/// A list without repeated names shares no name between two of its
/// requests.
pub proof fn lemma_chunks_disjoint<A>(s: Seq<A>, c1: int, c2: int, a: int, b: int)
    requires
        s.no_duplicates(),
        0 <= c1 < chunks_of(s).len(),
        0 <= c2 < chunks_of(s).len(),
        c1 != c2,
        0 <= a < chunks_of(s)[c1].len(),
        0 <= b < chunks_of(s)[c2].len(),
    ensures
        chunks_of(s)[c1][a] != chunks_of(s)[c2][b],
{
    assert(chunks_of(s)[c1][a] == s[c1 * 10 + a]);
    assert(chunks_of(s)[c2][b] == s[c2 * 10 + b]);
    assert(c1 * 10 + a != c2 * 10 + b);
}

/// Cuts `names` into the bulk requests to send: consecutive runs of at most
/// [`API_CHUNKS`] names, in order, `ceil(n / API_CHUNKS)` of them.
pub fn api_chunks(names: &[String]) -> (r: Vec<Vec<String>>)
    ensures
        r@.len() == chunk_count(names@.len()),
        forall|c: int| 0 <= c < r@.len() ==> (#[trigger] r@[c])@ == chunk_at(names@, c),
{
    let n = names.len();
    let count = n / API_CHUNKS + if n % API_CHUNKS == 0 {
        0
    } else {
        1
    };
    let mut r: Vec<Vec<String>> = Vec::new();
    let mut c: usize = 0;
    while c < count
        invariant
            n == names@.len(),
            count == chunk_count(n as nat),
            c <= count,
            r@.len() == c,
            forall|d: int| 0 <= d < c ==> (#[trigger] r@[d])@ == chunk_at(names@, d),
        decreases count - c,
    {
        let start = c * API_CHUNKS;
        let end = if n - start > API_CHUNKS {
            start + API_CHUNKS
        } else {
            n
        };
        let mut chunk: Vec<String> = Vec::new();
        let mut i = start;
        while i < end
            invariant
                start <= i <= end <= n,
                n == names@.len(),
                chunk@ == names@.subrange(start as int, i as int),
            decreases end - i,
        {
            chunk.push(names[i].clone());
            proof {
                assert(chunk@ =~= names@.subrange(start as int, i + 1));
            }
            i += 1;
        }
        r.push(chunk);
        c += 1;
    }
    r
}

/// The requests for a list of names cover it exactly: each holds between one
/// and [`API_CHUNKS`] names, there are `ceil(n / API_CHUNKS)` of them, and
/// laid end to end they give back the list, in its order. So a list without
/// repeated names puts each name in exactly one request.
pub proof fn lemma_chunks_cover<A>(s: Seq<A>)
    ensures
        chunks_of(s).len() == chunk_count(s.len()),
        forall|c: int|
            0 <= c < chunks_of(s).len() ==> 0 < (#[trigger] chunks_of(s)[c]).len() <= API_CHUNKS,
        chunks_of(s).flatten() == s,
    decreases s.len(),
{
    let cs = chunks_of(s);
    assert forall|c: int| 0 <= c < cs.len() implies 0 < (#[trigger] cs[c]).len() <= API_CHUNKS by {
        assert(c * 10 < s.len());
    }
    if s.len() == 0 {
        assert(cs.len() == 0);
        assert(cs.flatten() =~= s);
    } else {
        let rest = s.skip(API_CHUNKS as int);
        if s.len() <= API_CHUNKS {
            assert(cs.len() == 1);
            assert(cs.drop_first().len() == 0);
            assert(cs.drop_first().flatten() =~= Seq::<A>::empty());
            assert(cs.first() =~= s);
            assert(cs.flatten() =~= s);
        } else {
            lemma_chunks_cover(rest);
            assert(cs.drop_first() =~= chunks_of(rest)) by {
                assert(cs.drop_first().len() == chunks_of(rest).len());
                assert forall|c: int| 0 <= c < chunks_of(rest).len() implies cs.drop_first()[c]
                    =~= chunks_of(rest)[c] by {
                    assert(cs.drop_first()[c] == chunk_at(s, c + 1));
                }
            }
            assert(cs.first() =~= s.take(API_CHUNKS as int));
            assert(cs.flatten() =~= s);
        }
    }
}

} // verus!

//! Verified copies of byte strings and of segment paths, and the joining of
//! a segment path onto a base into the one byte string the remote side is
//! asked for.

use vstd::prelude::*;

verus! {

/// The byte string that names `segs` under `base`: each segment appended
/// behind exactly one separating slash.
pub open spec fn joined(base: Seq<u8>, segs: Seq<Seq<u8>>) -> Seq<u8>
    decreases segs.len(),
{
    if segs.len() == 0 {
        base
    } else {
        let with_slash = if base.len() > 0 && base.last() == 47u8 {
            base
        } else {
            base.push(47u8)
        };
        joined(with_slash + segs[0], segs.skip(1))
    }
}

/// Joins a segment path onto a base path.
pub fn join_path(base: &Vec<u8>, segments: &Vec<Vec<u8>>) -> (r: Vec<u8>)
    ensures
        r@ == joined(base@, segments.deep_view()),
{
    let ghost segs = segments.deep_view();
    let mut r = clone_bytes(base);
    let mut i: usize = 0;
    proof {
        assert(segs.skip(0) =~= segs);
    }
    while i < segments.len()
        invariant
            i <= segments@.len(),
            segs == segments.deep_view(),
            joined(base@, segs) == joined(r@, segs.skip(i as int)),
        decreases segments@.len() - i,
    {
        let ghost before = r@;
        if r.len() == 0 || r[r.len() - 1] != 47 {
            r.push(47);
        }
        let ghost with_slash = r@;
        let seg = &segments[i];
        let mut j: usize = 0;
        while j < seg.len()
            invariant
                j <= seg@.len(),
                r@ =~= with_slash + seg@.take(j as int),
            decreases seg@.len() - j,
        {
            r.push(seg[j]);
            j = j + 1;
        }
        proof {
            assert(seg@.take(seg@.len() as int) =~= seg@);
            assert(segs[i as int] == seg@);
            assert(r@ =~= with_slash + segs[i as int]);
            assert(segs.skip(i as int)[0] == segs[i as int]);
            assert(segs.skip(i as int).skip(1) =~= segs.skip(i as int + 1));
        }
        i = i + 1;
    }
    proof {
        assert(segs.skip(segs.len() as int) =~= Seq::<Seq<u8>>::empty());
    }
    r
}

/// Copies a byte string; the copy holds exactly the same bytes.
pub fn clone_bytes(v: &Vec<u8>) -> (r: Vec<u8>)
    ensures
        r@ == v@,
{
    let mut r: Vec<u8> = Vec::new();
    let mut i: usize = 0;
    while i < v.len()
        invariant
            i <= v.len(),
            r@ =~= v@.take(i as int),
        decreases v.len() - i,
    {
        r.push(v[i]);
        i = i + 1;
    }
    proof {
        assert(v@.take(v@.len() as int) =~= v@);
    }
    r
}

/// Copies a segment path; the copy holds exactly the same segments.
pub fn clone_path(p: &Vec<Vec<u8>>) -> (r: Vec<Vec<u8>>)
    ensures
        r.deep_view() == p.deep_view(),
        r@.len() == p@.len(),
{
    let mut r: Vec<Vec<u8>> = Vec::new();
    let mut i: usize = 0;
    while i < p.len()
        invariant
            i <= p.len(),
            r@.len() == i,
            r.deep_view() =~= p.deep_view().take(i as int),
        decreases p.len() - i,
    {
        let seg = clone_bytes(&p[i]);
        r.push(seg);
        proof {
            assert(r.deep_view() =~= p.deep_view().take(i + 1));
        }
        i = i + 1;
    }
    proof {
        assert(p.deep_view().take(p@.len() as int) =~= p.deep_view());
    }
    r
}

} // verus!

//! What the policy lints share: remarks, each about one statement.
use vstd::prelude::*;

verus! {

/// What a list of remarks holds: statement index and message.
pub open spec fn remarks_view(rs: Seq<(usize, String)>) -> Seq<(int, Seq<char>)> {
    rs.map_values(|r: (usize, String)| (r.0 as int, r.1@))
}

/// Appends a remark.
pub fn push_remark(out: &mut Vec<(usize, String)>, i: usize, message: String)
    ensures
        remarks_view(final(out)@) == remarks_view(old(out)@).push((i as int, message@)),
{
    proof {
        assert(remarks_view(out@.push((i, message))) == remarks_view(out@).push(
            (i as int, message@),
        ));
    }
    out.push((i, message));
}

} // verus!

use vstd::prelude::*;

verus! {

/// Where a reference to gamma line `reference` points once line `removed` of the
/// same source is taken out: nowhere if it named the removed line, one place
/// lower if it named a later line, unchanged otherwise.
pub open spec fn spec_reference_after_removal(reference: Option<usize>, removed: usize) -> Option<
    usize,
> {
    match reference {
        None => None,
        Some(k) => if k == removed {
            None
        } else if k > removed {
            Some((k - 1) as usize)
        } else {
            Some(k)
        },
    }
}

/// Re-points a detector line's reference to its gamma line after line `removed`
/// of the source was taken out.
pub fn reference_after_removal(reference: Option<usize>, removed: usize) -> (r: Option<usize>)
    ensures
        r == spec_reference_after_removal(reference, removed),
{
    match reference {
        None => None,
        Some(k) => if k == removed {
            None
        } else if k > removed {
            Some(k - 1)
        } else {
            Some(k)
        },
    }
}

/// A reference that survives the removal of a gamma line still names the same
/// line, and one that named the removed line names none.
pub proof fn lemma_reference_keeps_its_line<T>(lines: Seq<T>, removed: usize, reference: usize)
    requires
        removed < lines.len(),
        reference < lines.len(),
    ensures
        spec_reference_after_removal(Some(reference), removed) matches Some(k) ==> k
            < lines.remove(removed as int).len() && lines.remove(removed as int)[k as int]
            == lines[reference as int],
        spec_reference_after_removal(Some(reference), removed) is None <==> reference == removed,
{
}

} // verus!

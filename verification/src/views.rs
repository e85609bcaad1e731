//! Facts about views that every module uses.
use vstd::prelude::*;

verus! {

/// A run of characters is its own deep view.
pub broadcast proof fn lemma_text_deep_view(v: Vec<char>)
    ensures
        #[trigger] v.deep_view() == v@,
{
    assert(v.deep_view() =~= v@);
}

} // verus!

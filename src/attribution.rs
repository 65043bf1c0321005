//! Crediting a sampled ray to the shape it strikes.
use vstd::prelude::*;

verus! {

/// The names of a scene's shapes, as character sequences.
pub open spec fn name_views(names: Seq<String>) -> Seq<Seq<char>> {
    names.map_values(|s: String| s@)
}

/// Shape `j` may be credited with a ray from shape `emitter`: the ray strikes
/// it, and it does not carry the emitter's own name.
pub open spec fn is_candidate(
    names: Seq<Seq<char>>,
    emitter: int,
    strikes: Seq<bool>,
    j: int,
) -> bool {
    &&& 0 <= j < names.len()
    &&& j < strikes.len()
    &&& strikes[j]
    &&& names[j] != names[emitter]
}

/// The first candidate at index `j` or later, in collection order.
pub open spec fn first_hit_from(
    names: Seq<Seq<char>>,
    emitter: int,
    strikes: Seq<bool>,
    j: int,
) -> Option<int>
    decreases names.len() - j,
{
    if j >= names.len() {
        None
    } else if is_candidate(names, emitter, strikes, j) {
        Some(j)
    } else {
        first_hit_from(names, emitter, strikes, j + 1)
    }
}

/// The shape credited with a ray from `emitter`: the first candidate in
/// collection order (not the nearest one along the ray), if any.
pub open spec fn credited_shape(names: Seq<Seq<char>>, emitter: int, strikes: Seq<bool>) -> Option<
    int,
> {
    first_hit_from(names, emitter, strikes, 0)
}

/// What `first_hit_from` returns is a candidate with none before it from `j` on,
/// and `None` means that no candidate stands at `j` or later.
pub proof fn lemma_first_hit_from(names: Seq<Seq<char>>, emitter: int, strikes: Seq<bool>, j: int)
    requires
        j >= 0,
    ensures
        match first_hit_from(names, emitter, strikes, j) {
            Some(k) => j <= k && is_candidate(names, emitter, strikes, k) && forall|m: int|
                j <= m < k ==> !is_candidate(names, emitter, strikes, m),
            None => forall|m: int| j <= m ==> !is_candidate(names, emitter, strikes, m),
        },
    decreases names.len() - j,
{
    if j < names.len() && !is_candidate(names, emitter, strikes, j) {
        lemma_first_hit_from(names, emitter, strikes, j + 1);
    }
}

/// The credited shape is the first candidate in collection order; `None` when
/// no shape but the emitter (or one sharing its name) is struck.
pub proof fn lemma_credited_shape(names: Seq<Seq<char>>, emitter: int, strikes: Seq<bool>)
    ensures
        match credited_shape(names, emitter, strikes) {
            Some(k) => is_candidate(names, emitter, strikes, k) && forall|m: int|
                0 <= m < k ==> !is_candidate(names, emitter, strikes, m),
            None => forall|m: int| !is_candidate(names, emitter, strikes, m),
        },
{
    lemma_first_hit_from(names, emitter, strikes, 0);
}

/// Picks the shape credited with a ray emitted by shape `emitter`, given for
/// each shape of the scene whether the ray strikes it: the first struck shape
/// in collection order whose name differs from the emitter's.
pub fn first_hit(names: &Vec<String>, emitter: usize, strikes: &Vec<bool>) -> (r: Option<usize>)
    requires
        emitter < names.len(),
        strikes.len() == names.len(),
    ensures
        r matches Some(j) ==> credited_shape(name_views(names@), emitter as int, strikes@) == Some(
            j as int,
        ),
        r is None ==> credited_shape(name_views(names@), emitter as int, strikes@) is None,
        match r {
            Some(j) => {
                &&& j < names.len()
                &&& strikes@[j as int]
                &&& names@[j as int]@ != names@[emitter as int]@
                &&& forall|m: int|
                    0 <= m < j ==> !is_candidate(name_views(names@), emitter as int, strikes@, m)
            },
            None => forall|m: int| !is_candidate(name_views(names@), emitter as int, strikes@, m),
        },
{
    let ghost views = name_views(names@);
    let mut j: usize = 0;
    while j < names.len()
        invariant
            j <= names.len(),
            emitter < names.len(),
            strikes.len() == names.len(),
            views == name_views(names@),
            credited_shape(views, emitter as int, strikes@) == first_hit_from(
                views,
                emitter as int,
                strikes@,
                j as int,
            ),
        decreases names.len() - j,
    {
        if strikes[j] && names[j] != names[emitter] {
            proof {
                lemma_credited_shape(views, emitter as int, strikes@);
            }
            return Some(j);
        }
        j = j + 1;
    }
    proof {
        lemma_credited_shape(views, emitter as int, strikes@);
    }
    None
}

} // verus!

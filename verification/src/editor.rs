//! Which text editor the tools open.
use vstd::prelude::*;

verus! {

/// The editors tried, in this order, when the environment names none that
/// can be found: `nvim`, `helix`, `code`, `micro`, `nano`, `vim`, `vi`.
pub fn fallback_editors() -> (r: Vec<&'static str>)
    ensures
        r@.len() == 7,
        r@[0]@ == "nvim"@,
        r@[1]@ == "helix"@,
        r@[2]@ == "code"@,
        r@[3]@ == "micro"@,
        r@[4]@ == "nano"@,
        r@[5]@ == "vim"@,
        r@[6]@ == "vi"@,
{
    vec!["nvim", "helix", "code", "micro", "nano", "vim", "vi"]
}

/// The editor that the environment names: `VISUAL` if it is set, else
/// `EDITOR`.
pub fn editor_variable(visual: Option<String>, editor: Option<String>) -> (r: Option<String>)
    ensures
        r == match visual {
            Some(v) => Some(v),
            None => editor,
        },
{
    match visual {
        Some(v) => Some(v),
        None => editor,
    }
}

/// The first editor found among the fallbacks.
pub open spec fn first_found(found: Seq<Option<String>>) -> Option<String>
    decreases found.len(),
{
    if found.len() == 0 {
        None
    } else if found[0] is Some {
        found[0]
    } else {
        first_found(found.drop_first())
    }
}

/// The fallback chosen is the found one of least index, the first
/// included; none is chosen only when none was found.
pub proof fn lemma_first_found(found: Seq<Option<String>>)
    ensures
        first_found(found) is None <==> forall|j: int| 0 <= j < found.len() ==> (#[trigger] found[j]) is None,
        forall|k: int|
            0 <= k < found.len() && (#[trigger] found[k]) is Some && (forall|j: int| 0 <= j < k ==> found[j] is None)
                ==> first_found(found) == found[k],
        first_found(found) is Some ==> exists|k: int|
            0 <= k < found.len() && found[k] == first_found(found) && forall|j: int|
                0 <= j < k ==> (#[trigger] found[j]) is None,
    decreases found.len(),
{
    if found.len() > 0 {
        let rest = found.drop_first();
        lemma_first_found(rest);
        assert forall|j: int| 0 <= j < rest.len() implies #[trigger] rest[j] == found[j + 1] by {}
        if found[0] is None {
            assert forall|k: int|
                0 <= k < found.len() && (#[trigger] found[k]) is Some && (forall|j: int|
                    0 <= j < k ==> found[j] is None) implies first_found(found) == found[k] by {
                assert(k > 0);
                assert(rest[k - 1] == found[k]);
                assert forall|j: int| 0 <= j < k - 1 implies rest[j] is None by {
                    assert(rest[j] == found[j + 1]);
                }
            }
            if first_found(rest) is Some {
                let k = choose|k: int|
                    0 <= k < rest.len() && rest[k] == first_found(rest) && forall|j: int|
                        0 <= j < k ==> (#[trigger] rest[j]) is None;
                assert(found[k + 1] == rest[k]);
                assert forall|j: int| 0 <= j < k + 1 implies (#[trigger] found[j]) is None by {
                    if j > 0 {
                        assert(found[j] == rest[j - 1]);
                    }
                }
            } else {
                assert forall|j: int| 0 <= j < found.len() implies (#[trigger] found[j]) is None by {
                    if j > 0 {
                        assert(found[j] == rest[j - 1]);
                    }
                }
            }
        }
    }
}

/// The editor to open: the path of the environment's editor when it was
/// found, else the first fallback found (`candidates[i]` is the path of
/// the `i`-th fallback, when found); `None` when there is none.
pub fn choose_editor(configured: Option<String>, candidates: Vec<Option<String>>) -> (r: Option<String>)
    ensures
        r == match configured {
            Some(p) => Some(p),
            None => first_found(candidates@),
        },
        configured is None ==> (r is None <==> forall|j: int|
            0 <= j < candidates@.len() ==> (#[trigger] candidates@[j]) is None),
        configured is None ==> (r is Some ==> exists|k: int|
            0 <= k < candidates@.len() && candidates@[k] == r && forall|j: int|
                0 <= j < k ==> (#[trigger] candidates@[j]) is None),
{
    proof {
        lemma_first_found(candidates@);
    }
    if configured.is_some() {
        return configured;
    }
    assert(configured is None);
    let ghost all = candidates@;
    let mut found = candidates;
    let mut i: usize = 0;
    assert(all.skip(0) =~= all);
    while i < found.len()
        invariant
            found@ == all,
            all == candidates@,
            configured is None,
            i <= found.len(),
            first_found(all) == first_found(all.skip(i as int)),
        decreases found.len() - i,
    {
        assert(all.skip(i as int)[0] == all[i as int]);
        assert(all.skip(i as int).drop_first() =~= all.skip(i + 1));
        if found[i].is_some() {
            assert(first_found(all.skip(i as int)) == all[i as int]);
            let r = found.swap_remove(i);
            assert(r == all[i as int]);
            proof {
                lemma_first_found(all);
            }
            return r;
        }
        i += 1;
    }
    assert(all.skip(i as int) =~= Seq::<Option<String>>::empty());
    None
}

} // verus!

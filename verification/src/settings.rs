//! Settings kept across sessions: five favourite folders, the last folder
//! browsed and the default export folder.

use vstd::prelude::*;
use vstd::array::*;

verus! {

/// Number of favourite-folder slots.
pub const FAVORITE_SLOTS: usize = 5;

pub struct GlobalSettings {
    pub favorites: [Option<String>; 5],
    pub last_dir: Option<String>,
    pub default_export_dir: Option<String>,
}

impl Default for GlobalSettings {
    /// No favourites, no last folder, no export folder.
    fn default() -> (s: Self)
        ensures
            forall|i: int| 0 <= i < 5 ==> #[trigger] s.favorites@[i] is None,
            s.last_dir is None,
            s.default_export_dir is None,
    {
        GlobalSettings { favorites: [None, None, None, None, None], last_dir: None, default_export_dir: None }
    }
}

/// The first empty favourite slot, if any.
pub open spec fn first_empty_slot(favs: Seq<Option<String>>) -> Option<int>
    decreases favs.len(),
{
    if favs.len() == 0 {
        None
    } else {
        match first_empty_slot(favs.drop_last()) {
            Some(i) => Some(i),
            None => if favs.last() is None {
                Some(favs.len() - 1)
            } else {
                None
            },
        }
    }
}

proof fn lemma_first_empty_slot(favs: Seq<Option<String>>)
    ensures
        match first_empty_slot(favs) {
            Some(i) => 0 <= i < favs.len() && favs[i] is None && forall|j: int| 0 <= j < i ==> #[trigger] favs[j] is Some,
            None => forall|j: int| 0 <= j < favs.len() ==> #[trigger] favs[j] is Some,
        },
    decreases favs.len(),
{
    if favs.len() > 0 {
        lemma_first_empty_slot(favs.drop_last());
        assert forall|j: int| 0 <= j < favs.len() - 1 implies favs.drop_last()[j] == favs[j] by {}
    }
}

/// The slot that saving a folder as a favourite fills: the first empty one,
/// or the first slot when all are taken.
pub open spec fn favorite_target(favs: Seq<Option<String>>) -> int {
    match first_empty_slot(favs) {
        Some(i) => i,
        None => 0,
    }
}

/// Save `dir` as a favourite in the slot `favorite_target` picks; the other
/// slots keep their folders.
pub fn save_favorite(favs: &mut [Option<String>; 5], dir: &String)
    ensures
        forall|j: int|
            0 <= j < 5 && j != favorite_target(old(favs)@) ==> #[trigger] final(favs)@[j] == old(favs)@[j],
        final(favs)@[favorite_target(old(favs)@)] matches Some(s) && s@ == dir@,
{
    proof {
        lemma_first_empty_slot(favs@);
    }
    let mut i: usize = 0;
    while i < FAVORITE_SLOTS
        invariant_except_break
            0 <= i <= 5,
            favs@ == old(favs)@,
            forall|j: int| 0 <= j < i ==> #[trigger] favs@[j] is Some,
        ensures
            favs@ == old(favs)@,
            i < 5 ==> favs@[i as int] is None && forall|j: int| 0 <= j < i ==> #[trigger] favs@[j] is Some,
            i >= 5 ==> forall|j: int| 0 <= j < 5 ==> #[trigger] favs@[j] is Some,
        decreases 5 - i,
    {
        if favs[i].is_none() {
            break;
        }
        i = i + 1;
    }
    let slot = if i < FAVORITE_SLOTS { i } else { 0 };
    proof {
        let t = favorite_target(old(favs)@);
        match first_empty_slot(old(favs)@) {
            Some(k) => {
                if i >= 5 {
                    assert(old(favs)@[k] is Some);
                }
                if k < i {
                    assert(old(favs)@[k] is Some);
                }
                if i < k {
                    assert(old(favs)@[i as int] is Some);
                }
            },
            None => {
                if i < 5 {
                    assert(old(favs)@[i as int] is Some);
                }
            },
        }
        assert(slot == t);
    }
    favs[slot] = Some(dir.clone());
}

} // verus!

//! The persisted form of the custom pages: name, executable and arguments
//! of each page, in order; ids are given on loading (5, 6, ...).

use vstd::prelude::*;
use crate::state::{CustomPage, FIRST_CUSTOM_PAGE, page_ids_valid};

verus! {

/// A custom page as stored on disk (without its runtime id).
#[derive(Clone, Debug)]
pub struct SavedPage {
    pub name: String,
    pub exe: String,
    pub args: String,
}

/// A stored page as a value.
pub struct SavedView {
    pub name: Seq<char>,
    pub exe: Seq<char>,
    pub args: Seq<char>,
}

/// The stored pages as values.
pub open spec fn saved_views(s: Seq<SavedPage>) -> Seq<SavedView> {
    s.map_values(|p: SavedPage| SavedView { name: p.name@, exe: p.exe@, args: p.args@ })
}

/// The custom pages as stored values (ids dropped).
pub open spec fn page_saved_views(s: Seq<CustomPage>) -> Seq<SavedView> {
    s.map_values(|p: CustomPage| SavedView { name: p.name@, exe: p.exe@, args: p.args@ })
}

/// The pages built from stored pages: the `i`-th gets id `5 + i` and keeps
/// its name, executable and arguments.
pub open spec fn loaded(saved: Seq<SavedPage>, pages: Seq<CustomPage>) -> bool {
    &&& pages.len() == saved.len()
    &&& forall|i: int|
        0 <= i < saved.len() ==> {
            &&& #[trigger] pages[i].id == FIRST_CUSTOM_PAGE + i
            &&& pages[i].name == saved[i].name
            &&& pages[i].exe == saved[i].exe
            &&& pages[i].args == saved[i].args
        }
}

/// Builds the custom pages from the stored ones, numbering them 5, 6, ...
pub fn load(saved: Vec<SavedPage>) -> (pages: Vec<CustomPage>)
    requires
        saved@.len() <= 251,
    ensures
        loaded(saved@, pages@),
        page_ids_valid(pages@),
{
    let ghost all = saved@;
    let n = saved.len();
    let mut rest = saved;
    let mut pages: Vec<CustomPage> = Vec::new();
    let mut i: usize = 0;
    while rest.len() > 0
        invariant
            n == all.len(),
            n <= 251,
            i + rest@.len() == n,
            rest@ == all.skip(i as int),
            pages@.len() == i,
            forall|k: int|
                0 <= k < i ==> {
                    &&& #[trigger] pages@[k].id == FIRST_CUSTOM_PAGE + k
                    &&& pages@[k].name == all[k].name
                    &&& pages@[k].exe == all[k].exe
                    &&& pages@[k].args == all[k].args
                },
        decreases rest@.len(),
    {
        let s = rest.remove(0);
        proof {
            assert(s == all[i as int]);
        }
        pages.push(CustomPage { id: FIRST_CUSTOM_PAGE + i as u8, name: s.name, exe: s.exe, args: s.args });
        i = i + 1;
        proof {
            assert(rest@ =~= all.skip(i as int));
        }
    }
    proof {
        let p = pages@;
        assert forall|a: int, b: int| 0 <= a < p.len() && 0 <= b < p.len() && a != b implies p[a].id != p[b].id by {
            assert(p[a].id == FIRST_CUSTOM_PAGE + a);
            assert(p[b].id == FIRST_CUSTOM_PAGE + b);
        }
        assert forall|a: int| 0 <= a < p.len() implies p[a].id >= FIRST_CUSTOM_PAGE by {
            assert(p[a].id == FIRST_CUSTOM_PAGE + a);
        }
    }
    pages
}

/// The stored form of the custom pages (runtime ids dropped), in order.
pub fn save(pages: &Vec<CustomPage>) -> (saved: Vec<SavedPage>)
    ensures
        saved_views(saved@) == page_saved_views(pages@),
{
    let mut saved: Vec<SavedPage> = Vec::new();
    let mut i: usize = 0;
    while i < pages.len()
        invariant
            i <= pages@.len(),
            saved_views(saved@) == page_saved_views(pages@).take(i as int),
        decreases pages@.len() - i,
    {
        let p = &pages[i];
        let ghost before = saved@;
        let sp = SavedPage { name: p.name.clone(), exe: p.exe.clone(), args: p.args.clone() };
        saved.push(sp);
        proof {
            assert(saved@ == before.push(sp));
            assert(saved_views(saved@) =~= saved_views(before).push(SavedView { name: p.name@, exe: p.exe@, args: p.args@ }));
            assert(page_saved_views(pages@).take(i + 1) =~= page_saved_views(pages@).take(i as int).push(
                SavedView { name: p.name@, exe: p.exe@, args: p.args@ },
            ));
        }
        i = i + 1;
        proof {
            assert(saved_views(saved@) =~= page_saved_views(pages@).take(i as int));
        }
    }
    proof {
        assert(page_saved_views(pages@).take(i as int) =~= page_saved_views(pages@));
    }
    saved
}

/// Loading stored pages and storing them again gives back what was stored.
pub proof fn lemma_save_load_roundtrip(saved: Seq<SavedPage>, pages: Seq<CustomPage>)
    requires
        loaded(saved, pages),
    ensures
        page_saved_views(pages) == saved_views(saved),
{
    assert forall|i: int| 0 <= i < pages.len() implies #[trigger] page_saved_views(pages)[i] == saved_views(saved)[i] by {
        assert(pages[i].id == FIRST_CUSTOM_PAGE + i);
    }
    assert(page_saved_views(pages) =~= saved_views(saved));
}

} // verus!

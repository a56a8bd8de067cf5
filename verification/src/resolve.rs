//! `use` declarations: which modules a program names, and how their items
//! take the place of the declarations.
use vstd::prelude::*;
use crate::ast::{Item, ItemV, items_view, item_view};

verus! {

/// The module paths named by the `use` declarations, in order.
pub open spec fn use_paths_of(items: Seq<ItemV>) -> Seq<Seq<char>>
    decreases items.len(),
{
    if items.len() == 0 {
        Seq::empty()
    } else {
        match items.last() {
            ItemV::UseDecl { path } => use_paths_of(items.drop_last()).push(path),
            _ => use_paths_of(items.drop_last()),
        }
    }
}

/// The items with the `k`-th `use` declaration replaced by the items of
/// `modules[k]` (by nothing when there is no such module).
pub open spec fn spliced(items: Seq<ItemV>, modules: Seq<Seq<ItemV>>) -> Seq<ItemV>
    decreases items.len(),
{
    if items.len() == 0 {
        Seq::empty()
    } else {
        match items[0] {
            ItemV::UseDecl { .. } => (if modules.len() > 0 {
                modules[0]
            } else {
                Seq::empty()
            }) + spliced(items.drop_first(), if modules.len() > 0 {
                modules.drop_first()
            } else {
                modules
            }),
            _ => seq![items[0]] + spliced(items.drop_first(), modules),
        }
    }
}

/// The paths of the modules that `items` use, in order.
pub fn use_paths(items: &Vec<Item>) -> (r: Vec<String>)
    ensures
        r@.map_values(|s: String| s@) == use_paths_of(items_view(items@)),
{
    let ghost iv = items_view(items@);
    let mut out: Vec<String> = Vec::new();
    let mut i: usize = 0;
    assert(iv.subrange(0, 0) =~= Seq::<ItemV>::empty());
    assert(out@.map_values(|s: String| s@) =~= Seq::<Seq<char>>::empty());
    while i < items.len()
        invariant
            i <= items.len(),
            iv == items_view(items@),
            out@.map_values(|s: String| s@) == use_paths_of(iv.subrange(0, i as int)),
        decreases items.len() - i,
    {
        assert(iv.subrange(0, i + 1).drop_last() =~= iv.subrange(0, i as int));
        assert(iv.subrange(0, i + 1).last() == item_view(items@[i as int]));
        if let Item::UseDecl(u) = &items[i] {
            let ghost before = out@;
            out.push(u.path.clone());
            assert(out@.map_values(|s: String| s@) =~= before.map_values(|s: String| s@).push(u.path@));
        }
        i = i + 1;
    }
    assert(iv.subrange(0, items.len() as int) =~= iv);
    out
}

/// Replaces each `use` declaration, in order, by the items of the next
/// module (see [`spliced`]).
pub fn splice_uses(items: Vec<Item>, modules: Vec<Vec<Item>>) -> (r: Vec<Item>)
    ensures
        items_view(r@) == spliced(items_view(items@), modules@.map_values(|m: Vec<Item>| items_view(m@))),
{
    let ghost target = spliced(items_view(items@), modules@.map_values(|m: Vec<Item>| items_view(m@)));
    let mut items = items;
    let mut modules = modules;
    let mut out: Vec<Item> = Vec::new();
    while items.len() > 0
        invariant
            items_view(out@) + spliced(items_view(items@), modules@.map_values(|m: Vec<Item>| items_view(m@)))
                == target,
        decreases items.len(),
    {
        let ghost iv = items_view(items@);
        let ghost mv = modules@.map_values(|m: Vec<Item>| items_view(m@));
        let ghost ov = items_view(out@);
        let it = items.remove(0);
        assert(items_view(items@) =~= iv.drop_first());
        assert(iv[0] == item_view(it));
        match it {
            Item::UseDecl(_) => {
                if modules.len() > 0 {
                    let mut m = modules.remove(0);
                    let ghost m0 = items_view(m@);
                    assert(mv[0] == m0);
                    assert(modules@.map_values(|m: Vec<Item>| items_view(m@)) =~= mv.drop_first());
                    out.append(&mut m);
                    assert(items_view(out@) =~= ov + m0);
                    assert(ov + m0 + spliced(iv.drop_first(), mv.drop_first()) =~= ov + (m0 + spliced(
                        iv.drop_first(),
                        mv.drop_first(),
                    )));
                } else {
                    assert(ov + (Seq::<ItemV>::empty() + spliced(iv.drop_first(), mv)) =~= ov + spliced(
                        iv.drop_first(),
                        mv,
                    ));
                }
            },
            _ => {
                let ghost x = item_view(it);
                out.push(it);
                assert(items_view(out@) =~= ov.push(x));
                assert(ov.push(x) + spliced(iv.drop_first(), mv) =~= ov + (seq![x] + spliced(iv.drop_first(), mv)));
            },
        }
    }
    assert(items_view(out@) + Seq::<ItemV>::empty() =~= items_view(out@));
    out
}

} // verus!

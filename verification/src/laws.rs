//! The laws of the renumbering engine, proved from the model: a run without
//! configured depths or consumed markers changes nothing; globally
//! zero-indexed chapters lose exactly one at their last position; a recorded
//! marker prefix decrements exactly the descendants under it.

use vstd::prelude::*;

use crate::book::BookItemView;
use crate::book::BookView;
use crate::book::ChapterView;
use crate::config::ConfigView;
use crate::engine::apply_one_pending;
use crate::engine::apply_pending;
use crate::engine::chapter_marked;
use crate::engine::chapter_pending;
use crate::engine::dec_u32;
use crate::engine::global_number;
use crate::engine::is_strict_prefix;
use crate::engine::normalize;
use crate::engine::pass1_content;
use crate::engine::pass1_item_v;
use crate::engine::pass1_items_v;
use crate::engine::pass2_item_v;
use crate::engine::pass2_items_v;
use crate::engine::pending_item_v;
use crate::engine::pending_items_v;
use crate::engine::spec_apply;
use crate::engine::lemma_pass1_items_v;
use crate::engine::lemma_pass2_items_v;
use crate::text::contains_str;
use crate::text::count_occurrences;
use crate::text::lemma_contains_count;
use crate::text::lemma_removed_length;

verus! {

/// No numbered chapter under this item consumes the marker.
pub open spec fn item_marker_free(cfg: ConfigView, it: BookItemView) -> bool
    decreases it,
{
    match it {
        BookItemView::Chapter(c) => {
            &&& (match c.number {
                Option::Some(sn) => !contains_str(normalize(c.content), cfg.marker),
                Option::None => true,
            })
            &&& items_marker_free(cfg, c.sub_items)
        },
        _ => true,
    }
}

/// No numbered chapter under these items consumes the marker.
pub open spec fn items_marker_free(cfg: ConfigView, items: Seq<BookItemView>) -> bool
    decreases items,
{
    items.len() == 0 || (item_marker_free(cfg, items[0]) && items_marker_free(
        cfg,
        items.drop_first(),
    ))
}

proof fn lemma_pass1_identity_item(cfg: ConfigView, it: BookItemView)
    requires
        cfg.levels.len() == 0,
        item_marker_free(cfg, it),
    ensures
        pass1_item_v(cfg, it) == it,
        pending_item_v(cfg, it) == Seq::<Seq<u32>>::empty(),
    decreases it,
{
    match it {
        BookItemView::Chapter(c) => {
            lemma_pass1_identity_items(cfg, c.sub_items);
            match c.number {
                Option::Some(sn) => {
                    assert(global_number(cfg.levels, sn) =~= sn);
                    assert(pass1_item_v(cfg, it) =~~= it);
                    assert(pending_item_v(cfg, it) =~= Seq::<Seq<u32>>::empty());
                },
                Option::None => {
                    assert(pass1_item_v(cfg, it) =~~= it);
                    assert(pending_item_v(cfg, it) =~= Seq::<Seq<u32>>::empty());
                },
            }
        },
        _ => {},
    }
}

proof fn lemma_pass1_identity_items(cfg: ConfigView, items: Seq<BookItemView>)
    requires
        cfg.levels.len() == 0,
        items_marker_free(cfg, items),
    ensures
        pass1_items_v(cfg, items) == items,
        pending_items_v(cfg, items) == Seq::<Seq<u32>>::empty(),
    decreases items,
{
    if items.len() == 0 {
        assert(pass1_items_v(cfg, items) =~= items);
        assert(pending_items_v(cfg, items) =~= Seq::<Seq<u32>>::empty());
    } else {
        lemma_pass1_identity_item(cfg, items[0]);
        lemma_pass1_identity_items(cfg, items.drop_first());
        assert(pass1_items_v(cfg, items) =~= items);
        assert(pending_items_v(cfg, items) =~= Seq::<Seq<u32>>::empty());
    }
}

proof fn lemma_pass2_empty_item(it: BookItemView)
    ensures
        pass2_item_v(Seq::<Seq<u32>>::empty(), it) == it,
    decreases it,
{
    match it {
        BookItemView::Chapter(c) => {
            lemma_pass2_empty_items(c.sub_items);
            assert(pass2_item_v(Seq::<Seq<u32>>::empty(), it) =~~= it);
        },
        _ => {},
    }
}

proof fn lemma_pass2_empty_items(items: Seq<BookItemView>)
    ensures
        pass2_items_v(Seq::<Seq<u32>>::empty(), items) == items,
    decreases items,
{
    if items.len() == 0 {
        assert(pass2_items_v(Seq::<Seq<u32>>::empty(), items) =~= items);
    } else {
        lemma_pass2_empty_item(items[0]);
        lemma_pass2_empty_items(items.drop_first());
        assert(pass2_items_v(Seq::<Seq<u32>>::empty(), items) =~= items);
    }
}

/// With no globally zero-indexed depth and no consumed marker anywhere, a
/// run leaves the tree — numbers, contents and shape — exactly as it was.
pub proof fn lemma_identity(cfg: ConfigView, b: BookView)
    requires
        cfg.levels.len() == 0,
        items_marker_free(cfg, b.sections),
    ensures
        spec_apply(cfg, b) == b,
{
    lemma_pass1_identity_items(cfg, b.sections);
    lemma_pass2_empty_items(b.sections);
    assert(spec_apply(cfg, b) =~~= b);
}

/// Every prefix a run records has a length outside the configured depths:
/// a chapter whose children's depth is globally covered never consumes the
/// marker.
pub proof fn lemma_pending_lens_item(cfg: ConfigView, it: BookItemView)
    ensures
        forall|k: int| 0 <= k < pending_item_v(cfg, it).len() ==> !cfg.levels.contains(
            (#[trigger] pending_item_v(cfg, it)[k]).len() as usize,
        ),
    decreases it,
{
    match it {
        BookItemView::Chapter(c) => {
            lemma_pending_lens_items(cfg, c.sub_items);
            let own = chapter_pending(cfg, c);
            let rest = pending_items_v(cfg, c.sub_items);
            assert forall|k: int| 0 <= k < pending_item_v(cfg, it).len() implies !cfg
                .levels.contains((#[trigger] pending_item_v(cfg, it)[k]).len() as usize) by {
                if k < own.len() {
                    assert(pending_item_v(cfg, it)[k] == own[k]);
                } else {
                    assert(pending_item_v(cfg, it)[k] == rest[k - own.len()]);
                }
            }
        },
        _ => {},
    }
}

/// As `lemma_pending_lens_item`, over a sequence of items.
pub proof fn lemma_pending_lens_items(cfg: ConfigView, items: Seq<BookItemView>)
    ensures
        forall|k: int| 0 <= k < pending_items_v(cfg, items).len() ==> !cfg.levels.contains(
            (#[trigger] pending_items_v(cfg, items)[k]).len() as usize,
        ),
    decreases items,
{
    if items.len() > 0 {
        lemma_pending_lens_item(cfg, items[0]);
        lemma_pending_lens_items(cfg, items.drop_first());
        let own = pending_item_v(cfg, items[0]);
        let rest = pending_items_v(cfg, items.drop_first());
        assert forall|k: int| 0 <= k < pending_items_v(cfg, items).len() implies !cfg
            .levels.contains((#[trigger] pending_items_v(cfg, items)[k]).len() as usize) by {
            if k < own.len() {
                assert(pending_items_v(cfg, items)[k] == own[k]);
            } else {
                assert(pending_items_v(cfg, items)[k] == rest[k - own.len()]);
            }
        }
    }
}

/// Pass 2 never changes a number's length.
pub proof fn lemma_apply_pending_len(ps: Seq<Seq<u32>>, sn: Seq<u32>)
    ensures
        apply_pending(ps, sn).len() == sn.len(),
    decreases ps.len(),
{
    if ps.len() > 0 {
        lemma_apply_pending_len(ps.drop_first(), apply_one_pending(ps[0], sn));
    }
}

/// A position whose depth no recorded prefix has is untouched by pass 2.
pub proof fn lemma_apply_pending_untouched(ps: Seq<Seq<u32>>, sn: Seq<u32>, d: int)
    requires
        0 <= d < sn.len(),
        forall|k: int| 0 <= k < ps.len() ==> (#[trigger] ps[k]).len() != d,
    ensures
        apply_pending(ps, sn).len() == sn.len(),
        apply_pending(ps, sn)[d] == sn[d],
    decreases ps.len(),
{
    lemma_apply_pending_len(ps, sn);
    if ps.len() > 0 {
        assert(ps.drop_first().len() == ps.len() - 1);
        assert(forall|k: int| 0 <= k < ps.drop_first().len() ==> (#[trigger] ps.drop_first()[k]).len()
            != d) by {
            assert(forall|k: int| 0 <= k < ps.drop_first().len() ==> ps.drop_first()[k] == ps[k
                + 1]);
        }
        lemma_apply_pending_untouched(ps.drop_first(), apply_one_pending(ps[0], sn), d);
    }
}

/// A number that no recorded prefix strictly prefixes is untouched by
/// pass 2 altogether.
pub proof fn lemma_unrelated_untouched(ps: Seq<Seq<u32>>, sn: Seq<u32>)
    requires
        forall|k: int| 0 <= k < ps.len() ==> !is_strict_prefix(#[trigger] ps[k], sn),
    ensures
        apply_pending(ps, sn) == sn,
    decreases ps.len(),
{
    if ps.len() > 0 {
        assert(apply_one_pending(ps[0], sn) == sn);
        assert(forall|k: int| 0 <= k < ps.drop_first().len() ==> ps.drop_first()[k] == ps[k + 1]);
        lemma_unrelated_untouched(ps.drop_first(), sn);
    }
}

/// A single recorded prefix decrements a descendant's number at the
/// position just past the prefix, exactly once, clamped at zero.
pub proof fn lemma_single_pending(p: Seq<u32>, sn: Seq<u32>)
    requires
        is_strict_prefix(p, sn),
    ensures
        apply_pending(seq![p], sn) == sn.update(
            p.len() as int,
            dec_u32(sn[p.len() as int]),
        ),
{
    assert(seq![p].drop_first() =~= Seq::<Seq<u32>>::empty());
    assert(seq![p][0] == p);
    let once = apply_one_pending(p, sn);
    assert(apply_pending(seq![p].drop_first(), once) == once);
    assert(apply_pending(seq![p], sn) == once);
}

/// Marker removal, measured: where a chapter consumes a nonempty marker,
/// its new content is its normalized content shortened by exactly the
/// number of consumed occurrences times the marker's length — and at least
/// one occurrence is consumed. (Where the marker is superseded by a global
/// level, or absent, `pass1_content` leaves the content untouched.)
pub proof fn lemma_consumed_marker_length(cfg: ConfigView, sn: Seq<u32>, content: Seq<char>)
    requires
        chapter_marked(cfg, sn, content),
        cfg.marker.len() > 0,
    ensures
        pass1_content(cfg, sn, content).len() == normalize(content).len() - count_occurrences(
            normalize(content),
            cfg.marker,
        ) * cfg.marker.len(),
        count_occurrences(normalize(content), cfg.marker) >= 1,
{
    lemma_removed_length(normalize(content), cfg.marker);
    lemma_contains_count(normalize(content), cfg.marker);
}

/// What one item records is part of what its sequence records.
proof fn lemma_pending_sub_item(cfg: ConfigView, items: Seq<BookItemView>, k: int)
    requires
        0 <= k < items.len(),
    ensures
        forall|e: Seq<u32>| pending_item_v(cfg, items[k]).contains(e)
            ==> #[trigger] pending_items_v(cfg, items).contains(e),
    decreases items,
{
    if k == 0 {
        assert forall|e: Seq<u32>| pending_item_v(cfg, items[0]).contains(e)
            implies #[trigger] pending_items_v(cfg, items).contains(e) by {
            let i = choose|i: int| 0 <= i < pending_item_v(cfg, items[0]).len()
                && pending_item_v(cfg, items[0])[i] == e;
            assert(pending_items_v(cfg, items)[i] == e);
        }
    } else {
        lemma_pending_sub_item(cfg, items.drop_first(), k - 1);
        assert(items.drop_first()[k - 1] == items[k]);
        assert forall|e: Seq<u32>| pending_item_v(cfg, items[k]).contains(e)
            implies #[trigger] pending_items_v(cfg, items).contains(e) by {
            assert(pending_items_v(cfg, items.drop_first()).contains(e));
            let i = choose|i: int| 0 <= i < pending_items_v(cfg, items.drop_first()).len()
                && pending_items_v(cfg, items.drop_first())[i] == e;
            assert(pending_items_v(cfg, items)[pending_item_v(cfg, items[0]).len() + i] == e);
        }
    }
}

/// A chapter's position in the tree: a nonempty sequence of child indices,
/// the first into the top-level items, the rest into sub-items in turn.
pub open spec fn valid_chapter_path(items: Seq<BookItemView>, path: Seq<int>) -> bool
    decreases path.len(),
{
    &&& path.len() >= 1
    &&& 0 <= path[0] < items.len()
    &&& items[path[0]] is Chapter
    &&& (path.len() == 1 || valid_chapter_path(
        items[path[0]]->Chapter_0.sub_items,
        path.drop_first(),
    ))
}

/// The chapter a valid path leads to.
pub open spec fn chapter_at(items: Seq<BookItemView>, path: Seq<int>) -> ChapterView
    decreases path.len(),
{
    if path.len() <= 1 {
        items[path[0]]->Chapter_0
    } else {
        chapter_at(items[path[0]]->Chapter_0.sub_items, path.drop_first())
    }
}

proof fn lemma_pass1_at(cfg: ConfigView, items: Seq<BookItemView>, path: Seq<int>)
    requires
        valid_chapter_path(items, path),
    ensures
        valid_chapter_path(pass1_items_v(cfg, items), path),
        chapter_at(pass1_items_v(cfg, items), path).number == (match chapter_at(
            items,
            path,
        ).number {
            Option::Some(sn) => Option::Some(global_number(cfg.levels, sn)),
            Option::None => Option::None::<Seq<u32>>,
        }),
    decreases path.len(),
{
    broadcast use lemma_pass1_items_v;

    let c = items[path[0]]->Chapter_0;
    assert(pass1_items_v(cfg, items)[path[0]] == pass1_item_v(cfg, items[path[0]]));
    if path.len() > 1 {
        lemma_pass1_at(cfg, c.sub_items, path.drop_first());
    }
}

proof fn lemma_pass2_at(ps: Seq<Seq<u32>>, items: Seq<BookItemView>, path: Seq<int>)
    requires
        valid_chapter_path(items, path),
    ensures
        valid_chapter_path(pass2_items_v(ps, items), path),
        chapter_at(pass2_items_v(ps, items), path).number == (match chapter_at(
            items,
            path,
        ).number {
            Option::Some(sn) => Option::Some(apply_pending(ps, sn)),
            Option::None => Option::None::<Seq<u32>>,
        }),
    decreases path.len(),
{
    broadcast use lemma_pass2_items_v;

    let c = items[path[0]]->Chapter_0;
    assert(pass2_items_v(ps, items)[path[0]] == pass2_item_v(ps, items[path[0]]));
    if path.len() > 1 {
        lemma_pass2_at(ps, c.sub_items, path.drop_first());
    }
}

/// Where a run puts each chapter's number: the global renumbering of pass 1,
/// then every recorded prefix applied in order — and an unnumbered chapter
/// stays unnumbered. The tree's shape is untouched, so every path stays
/// valid.
pub proof fn lemma_number_after_run(cfg: ConfigView, b: BookView, path: Seq<int>)
    requires
        valid_chapter_path(b.sections, path),
    ensures
        valid_chapter_path(spec_apply(cfg, b).sections, path),
        chapter_at(spec_apply(cfg, b).sections, path).number == (match chapter_at(
            b.sections,
            path,
        ).number {
            Option::Some(sn) => Option::Some(
                apply_pending(
                    pending_items_v(cfg, b.sections),
                    global_number(cfg.levels, sn),
                ),
            ),
            Option::None => Option::None::<Seq<u32>>,
        }),
{
    lemma_pass1_at(cfg, b.sections, path);
    lemma_pass2_at(pending_items_v(cfg, b.sections), pass1_items_v(cfg, b.sections), path);
}

/// A numbered chapter that consumes the marker has its renumbered number
/// recorded for the second pass.
pub proof fn lemma_marked_chapter_recorded(cfg: ConfigView, items: Seq<BookItemView>, path: Seq<
    int,
>)
    requires
        valid_chapter_path(items, path),
        chapter_at(items, path).number is Some,
        chapter_marked(cfg, chapter_at(items, path).number->0, chapter_at(items, path).content),
    ensures
        pending_items_v(cfg, items).contains(
            global_number(cfg.levels, chapter_at(items, path).number->0),
        ),
    decreases path.len(),
{
    let c = items[path[0]]->Chapter_0;
    let e = global_number(cfg.levels, chapter_at(items, path).number->0);
    if path.len() <= 1 {
        assert(chapter_pending(cfg, c)[0] == e);
        assert(pending_item_v(cfg, items[path[0]])[0] == e);
        assert(pending_item_v(cfg, items[path[0]]).contains(e));
    } else {
        lemma_marked_chapter_recorded(cfg, c.sub_items, path.drop_first());
        let ps = pending_items_v(cfg, c.sub_items);
        let i = choose|i: int| 0 <= i < ps.len() && ps[i] == e;
        assert(pending_item_v(cfg, items[path[0]])[chapter_pending(cfg, c).len() + i] == e);
        assert(pending_item_v(cfg, items[path[0]]).contains(e));
    }
    lemma_pending_sub_item(cfg, items, path[0]);
}

/// Global zero-indexing: after a run, a chapter whose own depth is
/// configured has its last position exactly one less than before — whatever
/// markers were consumed anywhere — provided that position was positive
/// (decrements clamp at zero).
pub proof fn lemma_global_level_decrement(cfg: ConfigView, b: BookView, path: Seq<int>)
    requires
        valid_chapter_path(b.sections, path),
        chapter_at(b.sections, path).number is Some,
        chapter_at(b.sections, path).number->0.len() >= 1,
        cfg.levels.contains((chapter_at(b.sections, path).number->0.len() - 1) as usize),
        chapter_at(b.sections, path).number->0.last() > 0,
    ensures
        chapter_at(spec_apply(cfg, b).sections, path).number is Some,
        chapter_at(spec_apply(cfg, b).sections, path).number->0.len() == chapter_at(
            b.sections,
            path,
        ).number->0.len(),
        chapter_at(spec_apply(cfg, b).sections, path).number->0.last() == chapter_at(
            b.sections,
            path,
        ).number->0.last() - 1,
{
    let sn = chapter_at(b.sections, path).number->0;
    let d: int = sn.len() - 1;
    let gn = global_number(cfg.levels, sn);
    let ps = pending_items_v(cfg, b.sections);
    lemma_number_after_run(cfg, b, path);
    lemma_pending_lens_items(cfg, b.sections);
    assert(gn[d] == dec_u32(sn[d]));
    assert forall|k: int| 0 <= k < ps.len() implies (#[trigger] ps[k]).len() != d by {
        if ps[k].len() == d {
            assert(cfg.levels.contains(ps[k].len() as usize));
        }
    }
    lemma_apply_pending_untouched(ps, gn, d);
}

/// Local zero-indexing cascades: when a run records exactly one prefix `p`,
/// every numbered chapter whose renumbered number lies strictly under `p` is
/// decremented at the position just past the prefix — one less than its
/// pre-run value there, that depth not being globally covered — and every
/// other numbered chapter keeps its pass-1 number.
pub proof fn lemma_local_cascade(cfg: ConfigView, b: BookView, path: Seq<int>, p: Seq<u32>)
    requires
        pending_items_v(cfg, b.sections) == seq![p],
        valid_chapter_path(b.sections, path),
        chapter_at(b.sections, path).number is Some,
    ensures
        valid_chapter_path(spec_apply(cfg, b).sections, path),
        chapter_at(spec_apply(cfg, b).sections, path).number is Some,
        ({
            let sn = chapter_at(b.sections, path).number->0;
            let gn = global_number(cfg.levels, sn);
            let fin = chapter_at(spec_apply(cfg, b).sections, path).number->0;
            &&& (is_strict_prefix(p, gn) ==> fin == gn.update(
                p.len() as int,
                dec_u32(gn[p.len() as int]),
            ))
            &&& (is_strict_prefix(p, gn) ==> gn[p.len() as int] == sn[p.len() as int])
            &&& (!is_strict_prefix(p, gn) ==> fin == gn)
        }),
{
    let sn = chapter_at(b.sections, path).number->0;
    let gn = global_number(cfg.levels, sn);
    lemma_number_after_run(cfg, b, path);
    lemma_pending_lens_items(cfg, b.sections);
    assert(pending_items_v(cfg, b.sections)[0] == p);
    if is_strict_prefix(p, gn) {
        lemma_single_pending(p, gn);
        assert(!cfg.levels.contains(p.len() as usize));
        assert(gn[p.len() as int] == sn[p.len() as int]);
    } else {
        assert forall|k: int| 0 <= k < seq![p].len() implies !is_strict_prefix(
            #[trigger] seq![p][k],
            gn,
        ) by {
            assert(seq![p][k] == p);
        }
        lemma_unrelated_untouched(seq![p], gn);
    }
}

} // verus!

//! The renumbering engine: two full traversals of the document tree. The
//! first applies global zero-indexing and consumes local markers, recording
//! the (already renumbered) section number of each marked chapter; the second
//! decrements, for every recorded prefix, the position just past it in each
//! descendant's number. Decrementing a position already at zero clamps at
//! zero (the uniform underflow policy of this crate).

use vstd::prelude::*;

use crate::book::Book;
use crate::book::BookItem;
use crate::book::BookItemView;
use crate::book::BookView;
use crate::book::Chapter;
use crate::book::ChapterView;
use crate::book::item_view;
use crate::book::items_view;
use crate::book::lemma_items_view;
use crate::config::Config;
use crate::config::ConfigView;
use crate::text::contains_str;
use crate::text::remove_all;
use crate::text::replace_str;
use crate::text::str_contains;
use crate::text::str_replace;

verus! {

/// One decrement, clamped at zero.
pub open spec fn dec_u32(x: u32) -> u32 {
    if x > 0 {
        (x - 1) as u32
    } else {
        0
    }
}

/// The first pass's effect on a section number: every position whose depth
/// is configured in `levels` is decremented, independently.
pub open spec fn global_number(levels: Seq<usize>, sn: Seq<u32>) -> Seq<u32> {
    Seq::new(sn.len(), |i: int| if levels.contains(i as usize) {
        dec_u32(sn[i])
    } else {
        sn[i]
    })
}

/// Line endings are treated as equivalent before the marker search.
pub open spec fn normalize(c: Seq<char>) -> Seq<char> {
    replace_str(c, "\r\n"@, "\n"@)
}

/// This chapter consumes the marker: the marker occurs in its normalized
/// content and its children's depth is not already globally zero-indexed.
pub open spec fn chapter_marked(cfg: ConfigView, sn: Seq<u32>, content: Seq<char>) -> bool {
    contains_str(normalize(content), cfg.marker) && !cfg.levels.contains(sn.len() as usize)
}

/// The first pass's effect on a chapter's content: where the marker is
/// consumed, the content is normalized and every marker occurrence removed;
/// everywhere else it is untouched.
pub open spec fn pass1_content(cfg: ConfigView, sn: Seq<u32>, content: Seq<char>) -> Seq<char> {
    if chapter_marked(cfg, sn, content) {
        remove_all(normalize(content), cfg.marker)
    } else {
        content
    }
}

/// The first pass over one item.
pub open spec fn pass1_item_v(cfg: ConfigView, it: BookItemView) -> BookItemView
    decreases it,
{
    match it {
        BookItemView::Chapter(c) => BookItemView::Chapter(
            ChapterView {
                number: match c.number {
                    Option::Some(sn) => Option::Some(global_number(cfg.levels, sn)),
                    Option::None => Option::None,
                },
                content: match c.number {
                    Option::Some(sn) => pass1_content(cfg, sn, c.content),
                    Option::None => c.content,
                },
                sub_items: pass1_items_v(cfg, c.sub_items),
            },
        ),
        other => other,
    }
}

/// The first pass over a sequence of items.
pub open spec fn pass1_items_v(cfg: ConfigView, items: Seq<BookItemView>) -> Seq<BookItemView>
    decreases items,
{
    if items.len() == 0 {
        Seq::empty()
    } else {
        seq![pass1_item_v(cfg, items[0])] + pass1_items_v(cfg, items.drop_first())
    }
}

/// What one chapter records for the second pass: its renumbered section
/// number, exactly when it consumes the marker.
pub open spec fn chapter_pending(cfg: ConfigView, c: ChapterView) -> Seq<Seq<u32>> {
    match c.number {
        Option::Some(sn) => if chapter_marked(cfg, sn, c.content) {
            seq![global_number(cfg.levels, sn)]
        } else {
            Seq::empty()
        },
        Option::None => Seq::empty(),
    }
}

/// The prefixes recorded under one item, in traversal (pre-)order.
pub open spec fn pending_item_v(cfg: ConfigView, it: BookItemView) -> Seq<Seq<u32>>
    decreases it,
{
    match it {
        BookItemView::Chapter(c) => chapter_pending(cfg, c) + pending_items_v(cfg, c.sub_items),
        _ => Seq::empty(),
    }
}

/// The prefixes recorded under a sequence of items.
pub open spec fn pending_items_v(cfg: ConfigView, items: Seq<BookItemView>) -> Seq<Seq<u32>>
    decreases items,
{
    if items.len() == 0 {
        Seq::empty()
    } else {
        pending_item_v(cfg, items[0]) + pending_items_v(cfg, items.drop_first())
    }
}

/// `p` is a strict prefix of `sn`.
pub open spec fn is_strict_prefix(p: Seq<u32>, sn: Seq<u32>) -> bool {
    p.len() < sn.len() && sn.subrange(0, p.len() as int) == p
}

/// The second pass's effect of one recorded prefix on a section number.
pub open spec fn apply_one_pending(p: Seq<u32>, sn: Seq<u32>) -> Seq<u32> {
    if is_strict_prefix(p, sn) {
        sn.update(p.len() as int, dec_u32(sn[p.len() as int]))
    } else {
        sn
    }
}

/// All recorded prefixes applied in order.
pub open spec fn apply_pending(ps: Seq<Seq<u32>>, sn: Seq<u32>) -> Seq<u32>
    decreases ps.len(),
{
    if ps.len() == 0 {
        sn
    } else {
        apply_pending(ps.drop_first(), apply_one_pending(ps[0], sn))
    }
}

/// The second pass over one item.
pub open spec fn pass2_item_v(ps: Seq<Seq<u32>>, it: BookItemView) -> BookItemView
    decreases it,
{
    match it {
        BookItemView::Chapter(c) => BookItemView::Chapter(
            ChapterView {
                number: match c.number {
                    Option::Some(sn) => Option::Some(apply_pending(ps, sn)),
                    Option::None => Option::None,
                },
                content: c.content,
                sub_items: pass2_items_v(ps, c.sub_items),
            },
        ),
        other => other,
    }
}

/// The second pass over a sequence of items.
pub open spec fn pass2_items_v(ps: Seq<Seq<u32>>, items: Seq<BookItemView>) -> Seq<BookItemView>
    decreases items,
{
    if items.len() == 0 {
        Seq::empty()
    } else {
        seq![pass2_item_v(ps, items[0])] + pass2_items_v(ps, items.drop_first())
    }
}

/// The whole run on the model: pass 1, then pass 2 with everything pass 1
/// recorded.
pub open spec fn spec_apply(cfg: ConfigView, b: BookView) -> BookView {
    BookView {
        sections: pass2_items_v(
            pending_items_v(cfg, b.sections),
            pass1_items_v(cfg, b.sections),
        ),
    }
}

/// The first pass is element-wise.
pub broadcast proof fn lemma_pass1_items_v(cfg: ConfigView, items: Seq<BookItemView>)
    ensures
        #![trigger pass1_items_v(cfg, items)]
        pass1_items_v(cfg, items).len() == items.len(),
        forall|i: int| 0 <= i < items.len() ==> pass1_items_v(cfg, items)[i]
            == pass1_item_v(cfg, items[i]),
    decreases items,
{
    if items.len() > 0 {
        lemma_pass1_items_v(cfg, items.drop_first());
        assert forall|i: int| 0 <= i < items.len() implies pass1_items_v(cfg, items)[i]
            == pass1_item_v(cfg, items[i]) by {
            if i > 0 {
                assert(items.drop_first()[i - 1] == items[i]);
            }
        }
    }
}

/// The second pass is element-wise.
pub broadcast proof fn lemma_pass2_items_v(ps: Seq<Seq<u32>>, items: Seq<BookItemView>)
    ensures
        #![trigger pass2_items_v(ps, items)]
        pass2_items_v(ps, items).len() == items.len(),
        forall|i: int| 0 <= i < items.len() ==> pass2_items_v(ps, items)[i]
            == pass2_item_v(ps, items[i]),
    decreases items,
{
    if items.len() > 0 {
        lemma_pass2_items_v(ps, items.drop_first());
        assert forall|i: int| 0 <= i < items.len() implies pass2_items_v(ps, items)[i]
            == pass2_item_v(ps, items[i]) by {
            if i > 0 {
                assert(items.drop_first()[i - 1] == items[i]);
            }
        }
    }
}

/// Recorded prefixes concatenate over a sequence extended at its end.
pub proof fn lemma_pending_push(cfg: ConfigView, items: Seq<BookItemView>, x: BookItemView)
    ensures
        pending_items_v(cfg, items.push(x)) == pending_items_v(cfg, items) + pending_item_v(
            cfg,
            x,
        ),
    decreases items,
{
    if items.len() == 0 {
        assert(items.push(x)[0] == x);
        assert(items.push(x).drop_first() =~= Seq::<BookItemView>::empty());
        assert(pending_items_v(cfg, items.push(x).drop_first())
            == Seq::<Seq<u32>>::empty());
        assert(pending_items_v(cfg, items.push(x)) == pending_item_v(cfg, x)
            + Seq::<Seq<u32>>::empty());
        assert(pending_items_v(cfg, items) == Seq::<Seq<u32>>::empty());
        assert(pending_item_v(cfg, x) + Seq::<Seq<u32>>::empty() =~= Seq::<
            Seq<u32>,
        >::empty() + pending_item_v(cfg, x));
    } else {
        let tail = items.drop_first();
        assert(items.push(x)[0] == items[0]);
        assert(items.push(x).drop_first() =~= tail.push(x));
        lemma_pending_push(cfg, tail, x);
        assert(pending_items_v(cfg, items.push(x)) == pending_item_v(cfg, items[0])
            + pending_items_v(cfg, tail.push(x)));
        assert(pending_items_v(cfg, items) == pending_item_v(cfg, items[0])
            + pending_items_v(cfg, tail));
        assert(pending_item_v(cfg, items[0]) + (pending_items_v(cfg, tail)
            + pending_item_v(cfg, x)) =~= (pending_item_v(cfg, items[0])
            + pending_items_v(cfg, tail)) + pending_item_v(cfg, x));
    }
}

/// Applying the recorded prefixes is a left fold: one more prefix at the end
/// is applied last.
pub proof fn lemma_apply_pending_push(ps: Seq<Seq<u32>>, q: Seq<u32>, sn: Seq<u32>)
    ensures
        apply_pending(ps.push(q), sn) == apply_one_pending(q, apply_pending(ps, sn)),
    decreases ps.len(),
{
    if ps.len() == 0 {
        assert(ps.push(q)[0] == q);
        assert(ps.push(q).drop_first() =~= Seq::<Seq<u32>>::empty());
        assert(apply_pending(ps.push(q).drop_first(), apply_one_pending(q, sn))
            == apply_one_pending(q, sn));
        assert(apply_pending(ps.push(q), sn) == apply_one_pending(q, sn));
        assert(apply_pending(ps, sn) == sn);
    } else {
        let tail = ps.drop_first();
        assert(ps.push(q)[0] == ps[0]);
        assert(ps.push(q).drop_first() =~= tail.push(q));
        lemma_apply_pending_push(tail, q, apply_one_pending(ps[0], sn));
        assert(apply_pending(ps.push(q), sn) == apply_pending(
            tail.push(q),
            apply_one_pending(ps[0], sn),
        ));
        assert(apply_pending(ps, sn) == apply_pending(tail, apply_one_pending(ps[0], sn)));
    }
}

/// A deep view of a list of section numbers is its element-wise view.
pub broadcast proof fn lemma_numbers_deep_view(v: Vec<Vec<u32>>)
    ensures
        #![trigger v.deep_view()]
        v.deep_view().len() == v@.len(),
        forall|i: int| 0 <= i < v@.len() ==> v.deep_view()[i] == v@[i]@,
{
    assert forall|i: int| 0 <= i < v@.len() implies v.deep_view()[i] == v@[i]@ by {
        assert(v.deep_view()[i] =~= v@[i]@);
    }
}

/// One decrement, clamped at zero.
fn dec(x: u32) -> (r: u32)
    ensures
        r == dec_u32(x),
{
    if x > 0 {
        x - 1
    } else {
        0
    }
}

/// Whether depth `d` is configured for global zero-indexing.
#[verifier::loop_isolation(false)]
fn contains_level(levels: &Vec<usize>, d: usize) -> (r: bool)
    ensures
        r == levels@.contains(d),
{
    let mut k: usize = 0;
    while k < levels.len()
        invariant
            k <= levels@.len(),
            forall|j: int| 0 <= j < k ==> levels@[j] != d,
        decreases levels@.len() - k,
    {
        if levels[k] == d {
            return true;
        }
        k += 1;
    }
    false
}

/// An exact copy of a section number.
#[verifier::loop_isolation(false)]
fn copy_number(v: &Vec<u32>) -> (r: Vec<u32>)
    ensures
        r@ == v@,
{
    let mut out: Vec<u32> = Vec::new();
    let mut k: usize = 0;
    while k < v.len()
        invariant
            k <= v@.len(),
            out@ =~= v@.subrange(0, k as int),
        decreases v@.len() - k,
    {
        out.push(v[k]);
        k += 1;
    }
    proof {
        assert(out@ =~= v@);
    }
    out
}

/// The first pass's renumbering of one section number.
#[verifier::loop_isolation(false)]
fn global_dec(levels: &Vec<usize>, sn: &Vec<u32>) -> (r: Vec<u32>)
    ensures
        r@ == global_number(levels@, sn@),
{
    let mut out: Vec<u32> = Vec::new();
    let mut k: usize = 0;
    while k < sn.len()
        invariant
            k <= sn@.len(),
            out@.len() == k,
            forall|j: int| 0 <= j < k ==> out@[j] == global_number(levels@, sn@)[j],
        decreases sn@.len() - k,
    {
        let x = sn[k];
        if contains_level(levels, k) {
            out.push(dec(x));
        } else {
            out.push(x);
        }
        k += 1;
    }
    proof {
        assert(out@ =~= global_number(levels@, sn@));
    }
    out
}

/// Whether `p` is a strict prefix of `sn`.
#[verifier::loop_isolation(false)]
fn is_strict_prefix_exec(p: &Vec<u32>, sn: &Vec<u32>) -> (r: bool)
    ensures
        r == is_strict_prefix(p@, sn@),
{
    if p.len() >= sn.len() {
        return false;
    }
    let mut k: usize = 0;
    while k < p.len()
        invariant
            k <= p@.len(),
            p@.len() < sn@.len(),
            forall|j: int| 0 <= j < k ==> sn@[j] == p@[j],
        decreases p@.len() - k,
    {
        if sn[k] != p[k] {
            proof {
                assert(sn@.subrange(0, p@.len() as int)[k as int] != p@[k as int]);
            }
            return false;
        }
        k += 1;
    }
    proof {
        assert(sn@.subrange(0, p@.len() as int) =~= p@);
    }
    true
}

/// The second pass's renumbering of one section number.
#[verifier::loop_isolation(false)]
fn apply_pending_exec(ps: &Vec<Vec<u32>>, sn: Vec<u32>) -> (r: Vec<u32>)
    ensures
        r@ == apply_pending(ps.deep_view(), sn@),
{
    broadcast use lemma_numbers_deep_view;

    let ghost sn0 = sn@;
    let mut cur = sn;
    let mut k: usize = 0;
    while k < ps.len()
        invariant
            k <= ps@.len(),
            cur@ == apply_pending(ps.deep_view().subrange(0, k as int), sn0),
        decreases ps@.len() - k,
    {
        let ghost prefix = ps.deep_view().subrange(0, k as int);
        let p = &ps[k];
        if is_strict_prefix_exec(p, &cur) {
            let pos = p.len();
            let newval = dec(cur[pos]);
            cur[pos] = newval;
            proof {
                assert(cur@ =~= apply_one_pending(p@, apply_pending(prefix, sn0)));
            }
        } else {
            proof {
                assert(cur@ == apply_one_pending(p@, apply_pending(prefix, sn0)));
            }
        }
        proof {
            lemma_apply_pending_push(prefix, p@, sn0);
            assert(prefix.push(p@) =~= ps.deep_view().subrange(0, k as int + 1));
        }
        k += 1;
    }
    proof {
        assert(ps.deep_view().subrange(0, ps@.len() as int) =~= ps.deep_view());
    }
    cur
}

/// The first pass over one item: renumbers the chapter, consumes the marker,
/// records the marked chapter's new number, and recurses into sub-items.
#[verifier::loop_isolation(false)]
fn pass1_item(cfg: &Config, it: &BookItem, pending: &mut Vec<Vec<u32>>) -> (r: BookItem)
    ensures
        item_view(r) == pass1_item_v(cfg@, item_view(*it)),
        final(pending).deep_view() == old(pending).deep_view() + pending_item_v(cfg@, item_view(*it)),
    decreases *it,
{
    broadcast use lemma_numbers_deep_view;

    match it {
        BookItem::Chapter(c) => {
            let new_number: Option<Vec<u32>>;
            let new_content: String;
            match &c.number {
                Option::Some(sn) => {
                    let gn = global_dec(&cfg.levels, sn);
                    proof {
                        reveal_strlit("\r\n");
                    }
                    let normalized = str_replace(c.content.as_str(), "\r\n", "\n");
                    let has = str_contains(normalized.as_str(), cfg.marker.as_str());
                    let covered = contains_level(&cfg.levels, sn.len());
                    if has && !covered {
                        let copy = copy_number(&gn);
                        pending.push(copy);
                        proof {
                            assert(pending.deep_view() =~= old(pending).deep_view()
                                + chapter_pending(cfg@, item_view(*it)->Chapter_0));
                        }
                        if cfg.marker.as_str().is_empty() {
                            new_content = normalized;
                        } else {
                            proof {
                                reveal_strlit("");
                                assert(""@ =~= Seq::<char>::empty());
                            }
                            new_content = str_replace(
                                normalized.as_str(),
                                cfg.marker.as_str(),
                                "",
                            );
                        }
                    } else {
                        new_content = c.content.clone();
                        proof {
                            assert(pending.deep_view() =~= old(pending).deep_view()
                                + chapter_pending(cfg@, item_view(*it)->Chapter_0));
                        }
                    }
                    new_number = Option::Some(gn);
                },
                Option::None => {
                    new_number = Option::None;
                    new_content = c.content.clone();
                    proof {
                        assert(pending.deep_view() =~= old(pending).deep_view()
                            + chapter_pending(cfg@, item_view(*it)->Chapter_0));
                    }
                },
            }
            let ghost mid = pending.deep_view();
            let new_subs = pass1_items(cfg, &c.sub_items, pending);
            proof {
                assert(pending.deep_view() =~= old(pending).deep_view() + pending_item_v(
                    cfg@,
                    item_view(*it),
                ));
            }
            let out = BookItem::Chapter(
                Chapter { number: new_number, content: new_content, sub_items: new_subs },
            );
            proof {
                assert(item_view(out) =~~= pass1_item_v(cfg@, item_view(*it)));
            }
            out
        },
        BookItem::Separator => BookItem::Separator,
        BookItem::PartTitle(t) => BookItem::PartTitle(t.clone()),
    }
}

/// The first pass over a sequence of items, in order.
#[verifier::loop_isolation(false)]
fn pass1_items(cfg: &Config, items: &Vec<BookItem>, pending: &mut Vec<Vec<u32>>) -> (r: Vec<
    BookItem,
>)
    ensures
        items_view(r@) == pass1_items_v(cfg@, items_view(items@)),
        final(pending).deep_view() == old(pending).deep_view() + pending_items_v(
            cfg@,
            items_view(items@),
        ),
    decreases *items,
{
    broadcast use lemma_items_view, lemma_pass1_items_v;

    let ghost iv = items_view(items@);
    let mut out: Vec<BookItem> = Vec::new();
    let mut i: usize = 0;
    proof {
        assert(pending.deep_view() =~= old(pending).deep_view() + pending_items_v(
            cfg@,
            iv.subrange(0, 0),
        ));
    }
    while i < items.len()
        invariant
            i <= items@.len(),
            out@.len() == i,
            forall|j: int| 0 <= j < i ==> item_view(out@[j]) == pass1_item_v(cfg@, iv[j]),
            pending.deep_view() == old(pending).deep_view() + pending_items_v(
                cfg@,
                iv.subrange(0, i as int),
            ),
        decreases items@.len() - i,
    {
        let ghost before = pending.deep_view();
        let r1 = pass1_item(cfg, &items[i], pending);
        out.push(r1);
        proof {
            lemma_pending_push(cfg@, iv.subrange(0, i as int), iv[i as int]);
            assert(iv.subrange(0, i as int).push(iv[i as int]) =~= iv.subrange(0, i as int + 1));
        }
        i += 1;
    }
    proof {
        assert(iv.subrange(0, items@.len() as int) =~= iv);
        assert(items_view(out@) =~= pass1_items_v(cfg@, iv));
    }
    out
}

/// The second pass over one item: applies every recorded prefix to the
/// chapter's number and recurses into sub-items.
fn pass2_item(ps: &Vec<Vec<u32>>, it: &BookItem) -> (r: BookItem)
    ensures
        item_view(r) == pass2_item_v(ps.deep_view(), item_view(*it)),
    decreases *it,
{
    match it {
        BookItem::Chapter(c) => {
            let new_number: Option<Vec<u32>> = match &c.number {
                Option::Some(sn) => {
                    let copy = copy_number(sn);
                    Option::Some(apply_pending_exec(ps, copy))
                },
                Option::None => Option::None,
            };
            let new_subs = pass2_items(ps, &c.sub_items);
            let out = BookItem::Chapter(
                Chapter { number: new_number, content: c.content.clone(), sub_items: new_subs },
            );
            proof {
                assert(item_view(out) =~~= pass2_item_v(ps.deep_view(), item_view(*it)));
            }
            out
        },
        BookItem::Separator => BookItem::Separator,
        BookItem::PartTitle(t) => BookItem::PartTitle(t.clone()),
    }
}

/// The second pass over a sequence of items, in order.
#[verifier::loop_isolation(false)]
fn pass2_items(ps: &Vec<Vec<u32>>, items: &Vec<BookItem>) -> (r: Vec<BookItem>)
    ensures
        items_view(r@) == pass2_items_v(ps.deep_view(), items_view(items@)),
    decreases *items,
{
    broadcast use lemma_items_view, lemma_pass2_items_v;

    let ghost iv = items_view(items@);
    let mut out: Vec<BookItem> = Vec::new();
    let mut i: usize = 0;
    while i < items.len()
        invariant
            i <= items@.len(),
            out@.len() == i,
            forall|j: int| 0 <= j < i ==> item_view(out@[j]) == pass2_item_v(
                ps.deep_view(),
                iv[j],
            ),
        decreases items@.len() - i,
    {
        let r1 = pass2_item(ps, &items[i]);
        out.push(r1);
        i += 1;
    }
    proof {
        assert(items_view(out@) =~= pass2_items_v(ps.deep_view(), iv));
    }
    out
}

/// The whole run: renumbers the tree under the given configuration, in two
/// passes, and returns the tree, its shape untouched.
pub fn apply(cfg: &Config, book: Book) -> (r: Book)
    ensures
        r@ == spec_apply(cfg@, book@),
{
    broadcast use lemma_numbers_deep_view;

    let mut pending: Vec<Vec<u32>> = Vec::new();
    proof {
        assert(pending.deep_view() =~= Seq::<Seq<u32>>::empty());
    }
    let first = pass1_items(cfg, &book.sections, &mut pending);
    proof {
        assert(pending.deep_view() =~= pending_items_v(cfg@, items_view(book.sections@)));
    }
    let second = pass2_items(&pending, &first);
    let out = Book { sections: second };
    proof {
        assert(out@ =~~= spec_apply(cfg@, book@));
    }
    out
}

} // verus!

//! The document tree: an ordered forest of chapters, each with an optional
//! section number (one entry per nesting depth), textual content and
//! sub-items. Non-chapter items (separators, part titles) are carried along
//! untouched.

use vstd::prelude::*;

verus! {

/// One chapter of the document tree.
#[derive(Debug, PartialEq)]
pub struct Chapter {
    /// Position at each nesting depth, e.g. `[2, 3, 1]`; `None` for an
    /// unnumbered page, which renumbering skips entirely.
    pub number: Option<Vec<u32>>,
    /// The chapter's textual content, searched for the local marker.
    pub content: String,
    /// The chapter's sub-chapters and other nested items, in order.
    pub sub_items: Vec<BookItem>,
}

/// One item of the document tree.
#[derive(Debug, PartialEq)]
pub enum BookItem {
    Chapter(Chapter),
    Separator,
    PartTitle(String),
}

/// The whole document tree: the ordered top-level items.
#[derive(Debug, PartialEq)]
pub struct Book {
    pub sections: Vec<BookItem>,
}

/// Mathematical model of a chapter.
#[verifier::ext_equal]
pub struct ChapterView {
    pub number: Option<Seq<u32>>,
    pub content: Seq<char>,
    pub sub_items: Seq<BookItemView>,
}

/// Mathematical model of a tree item.
#[verifier::ext_equal]
pub enum BookItemView {
    Chapter(ChapterView),
    Separator,
    PartTitle(Seq<char>),
}

/// Mathematical model of the whole tree.
#[verifier::ext_equal]
pub struct BookView {
    pub sections: Seq<BookItemView>,
}

pub open spec fn chapter_view(c: Chapter) -> ChapterView
    decreases c,
{
    ChapterView {
        number: match c.number {
            Option::Some(n) => Option::Some(n@),
            Option::None => Option::None,
        },
        content: c.content@,
        sub_items: items_view(c.sub_items@),
    }
}

pub open spec fn item_view(it: BookItem) -> BookItemView
    decreases it,
{
    match it {
        BookItem::Chapter(c) => BookItemView::Chapter(chapter_view(c)),
        BookItem::Separator => BookItemView::Separator,
        BookItem::PartTitle(t) => BookItemView::PartTitle(t@),
    }
}

/// The models of a sequence of items, in order.
pub open spec fn items_view(s: Seq<BookItem>) -> Seq<BookItemView>
    decreases s,
{
    if s.len() == 0 {
        Seq::empty()
    } else {
        seq![item_view(s[0])] + items_view(s.drop_first())
    }
}

/// `items_view` is the element-wise model: same length, model at each index.
pub broadcast proof fn lemma_items_view(s: Seq<BookItem>)
    ensures
        #![trigger items_view(s)]
        items_view(s).len() == s.len(),
        forall|i: int| 0 <= i < s.len() ==> items_view(s)[i] == item_view(s[i]),
    decreases s,
{
    if s.len() > 0 {
        lemma_items_view(s.drop_first());
        assert forall|i: int| 0 <= i < s.len() implies items_view(s)[i] == item_view(s[i]) by {
            if i > 0 {
                assert(s.drop_first()[i - 1] == s[i]);
            }
        }
    }
}

impl View for Chapter {
    type V = ChapterView;

    open spec fn view(&self) -> ChapterView {
        chapter_view(*self)
    }
}

impl View for BookItem {
    type V = BookItemView;

    open spec fn view(&self) -> BookItemView {
        item_view(*self)
    }
}

impl View for Book {
    type V = BookView;

    open spec fn view(&self) -> BookView {
        BookView { sections: items_view(self.sections@) }
    }
}

} // verus!

use vstd::prelude::*;

verus! {

/// Number of words on one virtual page of a document.
pub const WORDS_PER_PAGE: usize = 250;

/// The virtual page (counted from 1) on which the word at `index` stands.
pub open spec fn page_of(index: int) -> int {
    index / (WORDS_PER_PAGE as int) + 1
}

/// Index of the first word of virtual page `page`; page 0 is read as page 1.
pub open spec fn first_word_of_page(page: int) -> int {
    if page <= 1 {
        0
    } else {
        (page - 1) * (WORDS_PER_PAGE as int)
    }
}

/// The virtual page on which the word at `index` stands.
pub fn page_of_word(index: usize) -> (page: usize)
    ensures
        page == page_of(index as int),
{
    index / WORDS_PER_PAGE + 1
}

/// Number of whole virtual pages in a document of `words` words.
pub fn whole_pages(words: usize) -> (pages: usize)
    ensures
        pages == words / WORDS_PER_PAGE,
{
    words / WORDS_PER_PAGE
}

/// The first word of every page stands on that page.
pub proof fn first_word_is_on_its_page(page: int)
    requires
        page >= 1,
    ensures
        page_of(first_word_of_page(page)) == page,
{
    assert((page - 1) * 250 / 250 == page - 1) by (nonlinear_arith)
        requires
            page >= 1,
    ;
}

} // verus!

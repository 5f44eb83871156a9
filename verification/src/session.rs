use vstd::prelude::*;
use crate::cli::{ArgKind, find_arg, first_arg};
use crate::decimal::{parse_i32, parse_usize, parse_signed32, parse_unsigned, decimal_text, printed_numbers_parse_back};
use crate::paging::{WORDS_PER_PAGE, first_word_of_page, page_of, first_word_is_on_its_page};
use crate::text::{text_eq, texts, file_extension, to_lowercase, path_extension, lowercase_of};

verus! {

/// A word of a document, as the reading engine hands it out: its text and
/// the position of its optimal recognition point.
pub struct RsvpWord {
    pub text: String,
    pub orp_index: usize,
}

/// The width of each word in terminal columns: its number of characters,
/// kept to 16 bits.
pub fn word_widths(words: &Vec<RsvpWord>) -> (widths: Vec<u16>)
    ensures
        widths@.len() == words@.len(),
        forall|i: int| 0 <= i < words@.len() ==> #[trigger] widths@[i] == (words@[i].text@.len() as u16),
{
    let mut widths: Vec<u16> = Vec::new();
    let mut i: usize = 0;
    while i < words.len()
        invariant
            i <= words@.len(),
            widths@.len() == i,
            forall|j: int| 0 <= j < i ==> #[trigger] widths@[j] == (words@[j].text@.len() as u16),
        decreases words@.len() - i,
    {
        let n = words[i].text.as_str().unicode_len();
        widths.push(n as u16);
        i = i + 1;
    }
    widths
}

/// The index that a 32-bit signed number from the engine stands for when
/// read as a `usize`: a negative number wraps around.
pub open spec fn engine_index_of(v: int) -> int {
    if v >= 0 { v } else { usize::MAX + 1 + v }
}

/// Reads a 32-bit signed number from the engine as an index, wrapping a
/// negative one around as a cast does.
pub fn engine_index(v: i32) -> (r: usize)
    ensures
        r == engine_index_of(v as int),
{
    if v >= 0 {
        v as usize
    } else {
        let m: usize = (-1 - v as i64) as usize;
        usize::MAX - m
    }
}

/// A word index handed to the engine as a 32-bit signed number, cut to
/// its low 32 bits as a cast does.
pub fn engine_word_index(index: usize) -> (r: i32)
    ensures
        r == index as i32,
{
    index as i32
}

/// Division by 250 rounding toward zero, as on the engine's signed numbers.
pub open spec fn div_words_per_page(v: int) -> int {
    if v >= 0 { v / (WORDS_PER_PAGE as int) } else { -((-v) / (WORDS_PER_PAGE as int)) }
}

fn engine_div(v: i32) -> (r: i32)
    ensures
        r == div_words_per_page(v as int),
{
    let w = v as i64;
    if w >= 0 {
        (w / 250) as i32
    } else {
        (-((-w) / 250)) as i32
    }
}

/// The number of whole virtual pages in a document of `total` words, as
/// the engine counts them.
pub fn engine_page_count(total: i32) -> (r: i32)
    ensures
        r == div_words_per_page(total as int),
{
    engine_div(total)
}

/// The virtual page on which a chapter that starts at word `word` begins.
pub fn engine_chapter_page(word: i32) -> (r: i32)
    ensures
        r == div_words_per_page(word as int) + 1,
{
    engine_div(word) + 1
}

/// The lower-case extension of a target file's name, empty when it has
/// none.
pub open spec fn extension_of(target: Seq<char>) -> Seq<char> {
    lowercase_of(
        match path_extension(target) {
            Some(e) => e,
            None => ""@,
        },
    )
}

/// The lower-case extension of a target file's name, empty when it has
/// none.
pub fn document_extension(target: &str) -> (ext: String)
    ensures
        ext@ == extension_of(target@),
{
    match file_extension(target) {
        Some(e) => to_lowercase(e.as_str()),
        None => to_lowercase(""),
    }
}

/// How a document is handed to the reading engine.
#[derive(Clone, Copy, PartialEq, Eq, Debug)]
pub enum SourceLoad {
    Txt,
    Docx,
    Epub,
    /// A compiled book.
    Sr,
    /// The pages `start ..= end` of a PDF.
    PdfPages { start: i32, end: i32 },
    /// One chapter of a PDF.
    PdfChapter { chapter: i32 },
}

/// The page range that stands for a whole PDF.
pub open spec fn whole_pdf() -> SourceLoad {
    SourceLoad::PdfPages { start: 1, end: 999999 }
}

/// How a document of extension `ext` is read whole: text, Word, EPUB and
/// PDF documents, and compiled books when `books` holds.
pub open spec fn whole_source(ext: Seq<char>, books: bool) -> Option<SourceLoad> {
    if ext == "txt"@ {
        Some(SourceLoad::Txt)
    } else if ext == "docx"@ {
        Some(SourceLoad::Docx)
    } else if ext == "epub"@ {
        Some(SourceLoad::Epub)
    } else if books && ext == "sr"@ {
        Some(SourceLoad::Sr)
    } else if ext == "pdf"@ {
        Some(whole_pdf())
    } else {
        None
    }
}

fn whole_source_exec(ext: &str, books: bool) -> (r: Option<SourceLoad>)
    ensures
        r == whole_source(ext@, books),
{
    if text_eq(ext, "txt") {
        Some(SourceLoad::Txt)
    } else if text_eq(ext, "docx") {
        Some(SourceLoad::Docx)
    } else if text_eq(ext, "epub") {
        Some(SourceLoad::Epub)
    } else if books && text_eq(ext, "sr") {
        Some(SourceLoad::Sr)
    } else if text_eq(ext, "pdf") {
        Some(SourceLoad::PdfPages { start: 1, end: 999999 })
    } else {
        None
    }
}

/// How a document is read to be compiled into a book; a book itself is
/// not compiled again.
pub fn compile_source(ext: &str) -> (r: Option<SourceLoad>)
    ensures
        r == whole_source(ext@, false),
{
    whole_source_exec(ext, false)
}

/// How a document is read to count its words.
pub fn document_source(ext: &str) -> (r: Option<SourceLoad>)
    ensures
        r == whole_source(ext@, true),
{
    whole_source_exec(ext, true)
}

/// The number that the argument after position `i` gives, read as an
/// `i32`; `default` when there is no such argument or it is no number.
pub open spec fn i32_arg(args: Seq<Seq<char>>, i: int, default: int) -> int {
    if 0 <= i + 1 < args.len() {
        match parse_signed32(args[i + 1]) {
            Some(v) => v,
            None => default,
        }
    } else {
        default
    }
}

/// The number that the argument after position `i` gives, read as a
/// `usize`; `default` when there is no such argument or it is no number.
pub open spec fn usize_arg(args: Seq<Seq<char>>, i: int, default: int) -> int {
    if 0 <= i + 1 < args.len() {
        match parse_unsigned(args[i + 1], usize::MAX as int) {
            Some(v) => v,
            None => default,
        }
    } else {
        default
    }
}

/// The argument after position `i` read as an `i32`, or `default`.
pub fn i32_after(args: &Vec<String>, i: usize, default: i32) -> (r: i32)
    requires
        i < args@.len(),
    ensures
        r == i32_arg(texts(args@), i as int, default as int),
{
    assert(texts(args@).len() == args@.len());
    if args.len() - i > 1 {
        assert(texts(args@)[i + 1] == args@[i + 1]@);
        match parse_i32(args[i + 1].as_str()) {
            Some(v) => v,
            None => default,
        }
    } else {
        default
    }
}

/// The argument after position `i` read as a `usize`, or `default`.
pub fn usize_after(args: &Vec<String>, i: usize, default: usize) -> (r: usize)
    requires
        i < args@.len(),
    ensures
        r == usize_arg(texts(args@), i as int, default as int),
{
    assert(texts(args@).len() == args@.len());
    if args.len() - i > 1 {
        assert(texts(args@)[i + 1] == args@[i + 1]@);
        match parse_usize(args[i + 1].as_str()) {
            Some(v) => v,
            None => default,
        }
    } else {
        default
    }
}

/// How a document is read to be presented: a PDF may be cut to one
/// chapter (`-c` or `--chapter`, chapter 1 when unreadable) or to a page
/// range (`-p`, `--page` or `--pages`, from page 1 when unreadable, to the
/// start page when no end page is readable).
pub open spec fn session_source_of(ext: Seq<char>, args: Seq<Seq<char>>) -> Option<SourceLoad> {
    if ext == "pdf"@ {
        match first_arg(args, ArgKind::Chapter, 0) {
            Some(i) => Some(SourceLoad::PdfChapter { chapter: i32_arg(args, i, 1) as i32 }),
            None => match first_arg(args, ArgKind::Page, 0) {
                Some(i) => {
                    let start = i32_arg(args, i, 1);
                    Some(SourceLoad::PdfPages { start: start as i32, end: i32_arg(args, i + 1, start) as i32 })
                },
                None => Some(whole_pdf()),
            },
        }
    } else {
        whole_source(ext, true)
    }
}

/// Decides how a document is read to be presented.
pub fn session_source(ext: &str, args: &Vec<String>) -> (r: Option<SourceLoad>)
    ensures
        r == session_source_of(ext@, texts(args@)),
{
    if text_eq(ext, "pdf") {
        match find_arg(args, ArgKind::Chapter) {
            Some(i) => Some(SourceLoad::PdfChapter { chapter: i32_after(args, i, 1) }),
            None => match find_arg(args, ArgKind::Page) {
                Some(i) => {
                    let start = i32_after(args, i, 1);
                    let end = if args.len() - i > 1 {
                        i32_after(args, i + 1, start)
                    } else {
                        start
                    };
                    Some(SourceLoad::PdfPages { start, end })
                },
                None => Some(SourceLoad::PdfPages { start: 1, end: 999999 }),
            },
        }
    } else {
        whole_source_exec(ext, true)
    }
}

/// Whether a document extension is that of a compiled book.
pub fn is_book(ext: &str) -> (r: bool)
    ensures
        r == (ext@ == "sr"@),
{
    text_eq(ext, "sr")
}

/// Whether the statistics of a document of extension `ext` give its
/// number of chapters: only a PDF's chapters are counted.
pub fn counts_pdf_chapters(ext: &str) -> (r: bool)
    ensures
        r == (ext@ == "pdf"@),
{
    text_eq(ext, "pdf")
}

/// Whether the engine keeps a saved reading position for a document
/// loaded this way: only compiled books have one.
pub fn has_saved_position(source: Option<SourceLoad>) -> (r: bool)
    ensures
        r == (source == Some(SourceLoad::Sr)),
{
    match source {
        Some(SourceLoad::Sr) => true,
        _ => false,
    }
}

/// The chapter of a compiled book at which reading is asked to start
/// (`-c` or `--chapter` followed by a number, chapter 1 when it is no
/// number); the engine is then asked for that chapter's first word.
pub open spec fn chapter_request_of(args: Seq<Seq<char>>, ext: Seq<char>) -> Option<int> {
    match first_arg(args, ArgKind::Chapter, 0) {
        Some(i) => if ext == "sr"@ && i + 1 < args.len() { Some(i32_arg(args, i, 1)) } else { None },
        None => None,
    }
}

/// Decides which chapter, if any, the engine is asked about before
/// reading starts.
pub fn chapter_request(args: &Vec<String>, ext: &str) -> (r: Option<i32>)
    ensures
        r is Some == chapter_request_of(texts(args@), ext@) is Some,
        r matches Some(c) ==> chapter_request_of(texts(args@), ext@) == Some(c as int),
{
    match find_arg(args, ArgKind::Chapter) {
        Some(i) => if is_book(ext) && args.len() - i > 1 {
            Some(i32_after(args, i, 1))
        } else {
            None
        },
        None => None,
    }
}

/// The word at which reading is asked to start, before it is kept inside
/// the document: in a compiled book the chapter's first word when the
/// engine knows the chapter; else the word given by `-w` or `--word` (0
/// when it is no number); else, outside PDFs, the first word of the page
/// given by `-p`, `--page` or `--pages` (page 1 when it is no number);
/// else the saved position of a compiled book, or 0.
pub open spec fn start_choice(args: Seq<Seq<char>>, ext: Seq<char>, saved: int, chapter_word: int) -> int {
    let base = if ext == "sr"@ { saved } else { 0 };
    match first_arg(args, ArgKind::Chapter, 0) {
        Some(i) => if ext == "sr"@ && i + 1 < args.len() && chapter_word != -1 {
            engine_index_of(chapter_word)
        } else {
            base
        },
        None => match first_arg(args, ArgKind::Word, 0) {
            Some(i) => if i + 1 < args.len() { usize_arg(args, i, 0) } else { base },
            None => match first_arg(args, ArgKind::Page, 0) {
                Some(i) => if ext != "pdf"@ && i + 1 < args.len() {
                    first_word_of_page(usize_arg(args, i, 1))
                } else {
                    base
                },
                None => base,
            },
        },
    }
}

/// The word at which reading starts in a document of `total` words: the
/// chosen word, or the last word when the choice lies past it.
pub open spec fn start_index_of(args: Seq<Seq<char>>, ext: Seq<char>, saved: int, total: int, chapter_word: int) -> int {
    let s = start_choice(args, ext, saved, chapter_word);
    let last = if total >= 1 { total - 1 } else { 0 };
    if s < last { s } else { last }
}

/// The word at which reading starts in a document of `total_words` words;
/// `chapter_word` is the engine's answer, -1 for an unknown chapter, to
/// the question that `chapter_request` asks, and is not read when there
/// was none. `None` when the page given lies beyond the largest index.
pub fn determine_start_index(
    args: &Vec<String>,
    ext: &str,
    sr_saved_index: usize,
    total_words: usize,
    chapter_word: i32,
) -> (r: Option<usize>)
    ensures
        r is None == (start_choice(texts(args@), ext@, sr_saved_index as int, chapter_word as int) > usize::MAX),
        r matches Some(v) ==> v == start_index_of(
            texts(args@),
            ext@,
            sr_saved_index as int,
            total_words as int,
            chapter_word as int,
        ),
        r matches Some(v) ==> (total_words >= 1 ==> v < total_words) && (total_words == 0 ==> v == 0),
{
    let ghost t = texts(args@);
    let book = is_book(ext);
    let mut start = if book { sr_saved_index } else { 0 };
    match find_arg(args, ArgKind::Chapter) {
        Some(i) => {
            if book && args.len() - i > 1 && chapter_word != -1 {
                start = engine_index(chapter_word);
            }
        },
        None => match find_arg(args, ArgKind::Word) {
            Some(i) => {
                if args.len() - i > 1 {
                    start = usize_after(args, i, 0);
                }
            },
            None => match find_arg(args, ArgKind::Page) {
                Some(i) => {
                    if !text_eq(ext, "pdf") && args.len() - i > 1 {
                        let p = usize_after(args, i, 1);
                        let before = p.saturating_sub(1);
                        if before > usize::MAX / WORDS_PER_PAGE {
                            return None;
                        }
                        start = before * WORDS_PER_PAGE;
                    }
                },
                None => {},
            },
        },
    }
    let last = total_words.saturating_sub(1);
    Some(if start < last { start } else { last })
}

/// How many words `pages` virtual pages hold; `None` when the number
/// exceeds the largest `usize`.
pub fn words_in_pages(pages: usize) -> (r: Option<usize>)
    ensures
        r is None == (pages * WORDS_PER_PAGE > usize::MAX),
        r matches Some(w) ==> w == pages * WORDS_PER_PAGE,
{
    if pages > usize::MAX / WORDS_PER_PAGE {
        None
    } else {
        Some(pages * WORDS_PER_PAGE)
    }
}

/// Why a chapter cannot be added.
#[derive(Clone, Copy, PartialEq, Eq, Debug)]
pub enum ChapterError {
    /// Chapters are kept only in compiled books.
    NotABook,
    /// A chapter title holds at most 63 bytes.
    TitleTooLong,
}

/// Checks a request to add a chapter titled `title` to a document of
/// extension `ext`; the title's length is counted in UTF-8 bytes.
pub fn check_add_chapter(ext: &str, title: &str) -> (r: Result<(), ChapterError>)
    ensures
        r == if ext@ != "sr"@ {
            Err(ChapterError::NotABook)
        } else if title.len() > 63 {
            Err(ChapterError::TitleTooLong)
        } else {
            Ok(())
        },
{
    if !is_book(ext) {
        Err(ChapterError::NotABook)
    } else if title.len() > 63 {
        Err(ChapterError::TitleTooLong)
    } else {
        Ok(())
    }
}

/// Asked to start at page `p` of a document that has that page, reading
/// starts on page `p`.
pub proof fn page_option_starts_on_page(args: Seq<Seq<char>>, ext: Seq<char>, saved: int, total: int, chapter_word: int, i: int)
    requires
        ext != "pdf"@,
        first_arg(args, ArgKind::Chapter, 0) is None,
        first_arg(args, ArgKind::Word, 0) is None,
        first_arg(args, ArgKind::Page, 0) == Some(i),
        i + 1 < args.len(),
        usize_arg(args, i, 1) >= 1,
        first_word_of_page(usize_arg(args, i, 1)) < total,
    ensures
        page_of(start_index_of(args, ext, saved, total, chapter_word)) == usize_arg(args, i, 1),
{
    first_word_is_on_its_page(usize_arg(args, i, 1));
}

/// A compiled book opened without a chapter, word or page to start at
/// resumes where reading stopped, when that lies within the book.
pub proof fn book_resumes_where_it_stopped(args: Seq<Seq<char>>, saved: int, total: int, chapter_word: int)
    requires
        first_arg(args, ArgKind::Chapter, 0) is None,
        first_arg(args, ArgKind::Word, 0) is None,
        first_arg(args, ArgKind::Page, 0) is None,
        0 <= saved < total,
    ensures
        start_index_of(args, "sr"@, saved, total, chapter_word) == saved,
{
}

/// Asked to start at the page that is printed for word `i` (on a page
/// heading, in a chapter list or a status bar), reading starts at the
/// first word of that page, at or before word `i`.
pub proof fn printed_page_leads_back(args: Seq<Seq<char>>, ext: Seq<char>, saved: int, total: int, chapter_word: int, k: int, i: int)
    requires
        ext != "pdf"@,
        first_arg(args, ArgKind::Chapter, 0) is None,
        first_arg(args, ArgKind::Word, 0) is None,
        first_arg(args, ArgKind::Page, 0) == Some(k),
        0 <= k,
        k + 1 < args.len(),
        0 <= i < total <= usize::MAX,
        args[k + 1] == decimal_text(page_of(i) as nat),
    ensures
        start_index_of(args, ext, saved, total, chapter_word) == i - i % (WORDS_PER_PAGE as int),
{
    let p = page_of(i);
    assert(p == i / 250 + 1 && p <= usize::MAX);
    printed_numbers_parse_back(p as nat, usize::MAX as int);
    assert(usize_arg(args, k, 1) == p);
    assert((i / 250) * 250 == i - i % 250);
    assert(first_word_of_page(p) == i - i % 250);
}

/// Asked to start at word `n` (`-w n` or `--word n`, without a chapter
/// option), reading starts at word `n`, or at the last word when the
/// document is shorter; a word option that is no number starts at the
/// first word.
pub proof fn word_option_starts_at_word(args: Seq<Seq<char>>, ext: Seq<char>, saved: int, total: int, chapter_word: int, i: int)
    requires
        first_arg(args, ArgKind::Chapter, 0) is None,
        first_arg(args, ArgKind::Word, 0) == Some(i),
        0 <= i,
        i + 1 < args.len(),
        1 <= total,
    ensures
        parse_unsigned(args[i + 1], usize::MAX as int) matches Some(n) ==> {
            &&& n < total ==> start_index_of(args, ext, saved, total, chapter_word) == n
            &&& n >= total ==> start_index_of(args, ext, saved, total, chapter_word) == total - 1
        },
        parse_unsigned(args[i + 1], usize::MAX as int) is None ==> start_index_of(args, ext, saved, total, chapter_word)
            == 0,
{
}

/// In a compiled book asked to start at a chapter the engine knows, at
/// word `chapter_word` of the book, reading starts at that word.
pub proof fn chapter_option_starts_at_chapter(args: Seq<Seq<char>>, saved: int, total: int, chapter_word: int, i: int)
    requires
        first_arg(args, ArgKind::Chapter, 0) == Some(i),
        0 <= i,
        i + 1 < args.len(),
        0 <= chapter_word < total,
    ensures
        start_index_of(args, "sr"@, saved, total, chapter_word) == chapter_word,
{
}

/// Outside compiled books, reading without a start option starts at the
/// first word.
pub proof fn other_documents_start_at_first_word(args: Seq<Seq<char>>, ext: Seq<char>, saved: int, total: int, chapter_word: int)
    requires
        ext != "sr"@,
        first_arg(args, ArgKind::Chapter, 0) is None,
        first_arg(args, ArgKind::Word, 0) is None,
        first_arg(args, ArgKind::Page, 0) is None,
    ensures
        start_index_of(args, ext, saved, total, chapter_word) == 0,
{
}

/// Text, Word, EPUB and PDF documents are read whole (a PDF from page 1
/// to page 999999) whether they are compiled or counted; compiled books
/// are counted but not compiled again; and no other extension is read.
pub proof fn readable_formats(ext: Seq<char>, books: bool)
    ensures
        whole_source("txt"@, books) == Some(SourceLoad::Txt),
        whole_source("docx"@, books) == Some(SourceLoad::Docx),
        whole_source("epub"@, books) == Some(SourceLoad::Epub),
        whole_source("pdf"@, books) == Some(SourceLoad::PdfPages { start: 1, end: 999999 }),
        whole_source("sr"@, true) == Some(SourceLoad::Sr),
        whole_source("sr"@, false) is None,
        ext != "sr"@ ==> whole_source(ext, false) == whole_source(ext, true),
        whole_source(ext, books) is Some <==> (ext == "txt"@ || ext == "docx"@ || ext == "epub"@ || ext == "pdf"@ || (books
            && ext == "sr"@)),
{
    reveal_strlit("txt");
    reveal_strlit("docx");
    reveal_strlit("epub");
    reveal_strlit("pdf");
    reveal_strlit("sr");
    assert("txt"@.len() == 3 && "pdf"@.len() == 3 && "docx"@.len() == 4 && "epub"@.len() == 4 && "sr"@.len() == 2);
    assert("txt"@[0] != "pdf"@[0]);
    assert("docx"@[0] != "epub"@[0]);
}

/// A PDF is read from the chapter given by `-c` or `--chapter`, else
/// from the pages given by `-p`, `--page` or `--pages` (start and end
/// page, the end page being the start page when it is missing), else
/// whole; other documents are read whole whatever the options.
pub proof fn pdf_options_cut_the_document(args: Seq<Seq<char>>, ext: Seq<char>, i: int, a: int, b: int)
    requires
        0 <= i,
    ensures
        ext != "pdf"@ ==> session_source_of(ext, args) == whole_source(ext, true),
        first_arg(args, ArgKind::Chapter, 0) == Some(i) && i + 1 < args.len() && parse_signed32(args[i + 1]) == Some(a)
            ==> session_source_of("pdf"@, args) == Some(SourceLoad::PdfChapter { chapter: a as i32 }),
        first_arg(args, ArgKind::Chapter, 0) is None && first_arg(args, ArgKind::Page, 0) == Some(i) && i + 2
            < args.len() && parse_signed32(args[i + 1]) == Some(a) && parse_signed32(args[i + 2]) == Some(b)
            ==> session_source_of("pdf"@, args) == Some(SourceLoad::PdfPages { start: a as i32, end: b as i32 }),
        first_arg(args, ArgKind::Chapter, 0) is None && first_arg(args, ArgKind::Page, 0) == Some(i) && i + 2
            == args.len() && parse_signed32(args[i + 1]) == Some(a) ==> session_source_of("pdf"@, args) == Some(
            SourceLoad::PdfPages { start: a as i32, end: a as i32 },
        ),
        first_arg(args, ArgKind::Chapter, 0) is None && first_arg(args, ArgKind::Page, 0) is None
            ==> session_source_of("pdf"@, args) == Some(SourceLoad::PdfPages { start: 1, end: 999999 }),
{
}

} // verus!

use speedreader::cli::{dispatch, find_arg, wants_viewer, Action, ArgKind, Dispatch};
use speedreader::session::{
    chapter_request, check_add_chapter, compile_source, counts_pdf_chapters, has_saved_position, determine_start_index, document_extension, document_source,
    engine_chapter_page, engine_index, engine_page_count, engine_word_index, i32_after, is_book, session_source,
    usize_after, words_in_pages, ChapterError, SourceLoad,
};

fn args(v: &[&str]) -> Vec<String> {
    v.iter().map(|s| s.to_string()).collect()
}

#[test]
fn help_is_shown_without_arguments_or_when_asked() {
    assert_eq!(dispatch(&args(&["speedreader"])), Dispatch::Help);
    assert_eq!(dispatch(&args(&["speedreader", "book.txt", "-h"])), Dispatch::Help);
    assert_eq!(dispatch(&args(&["speedreader", "--stats", "--help"])), Dispatch::Help);
}

#[test]
fn reading_is_the_default() {
    assert_eq!(dispatch(&args(&["speedreader", "book.txt"])), Dispatch::Run { action: Action::Read, flag_index: 0 });
    assert_eq!(dispatch(&args(&["speedreader", "book.txt", "--view", "-w", "30"])), Dispatch::Run { action: Action::Read, flag_index: 0 });
    assert_eq!(dispatch(&args(&["speedreader", "-w", "30"])), Dispatch::NoTargetFile);
}

#[test]
fn flags_choose_actions_in_table_order() {
    assert_eq!(
        dispatch(&args(&["speedreader", "a.txt", "--stats", "--compile", "out.sr"])),
        Dispatch::Run { action: Action::Compile, flag_index: 3 }
    );
    assert_eq!(
        dispatch(&args(&["speedreader", "book.sr", "-l"])),
        Dispatch::Run { action: Action::ListChapters, flag_index: 2 }
    );
    assert_eq!(
        dispatch(&args(&["speedreader", "book.sr", "-a", "100", "Intro"])),
        Dispatch::Run { action: Action::AddChapter, flag_index: 2 }
    );
}

#[test]
fn missing_arguments_are_reported() {
    assert_eq!(
        dispatch(&args(&["speedreader", "book.sr", "--add-chapter", "10"])),
        Dispatch::MissingArguments { action: Action::AddChapter, flag_index: 2 }
    );
    assert_eq!(
        dispatch(&args(&["speedreader", "book.txt", "--calc"])),
        Dispatch::MissingArguments { action: Action::CalcFile, flag_index: 2 }
    );
}

#[test]
fn file_commands_need_a_target_file() {
    assert_eq!(dispatch(&args(&["speedreader", "-s"])), Dispatch::NeedsTargetFile { action: Action::Stats, flag_index: 1 });
    assert_eq!(
        dispatch(&args(&["speedreader", "-cw", "300", "1000"])),
        Dispatch::Run { action: Action::CalcWords, flag_index: 1 }
    );
    assert_eq!(
        dispatch(&args(&["speedreader", "--calc-pages", "300", "4"])),
        Dispatch::Run { action: Action::CalcPages, flag_index: 1 }
    );
}

#[test]
fn arguments_are_found_by_kind() {
    let a = args(&["speedreader", "b.sr", "--chapter", "3", "-v"]);
    assert_eq!(find_arg(&a, ArgKind::Chapter), Some(2));
    assert_eq!(find_arg(&a, ArgKind::Word), None);
    assert!(wants_viewer(&a));
    assert!(!wants_viewer(&args(&["speedreader", "b.sr"])));
    assert_eq!(i32_after(&a, 2, 1), 3);
    assert_eq!(i32_after(&a, 4, 1), 1);
    assert_eq!(usize_after(&a, 1, 0), 0);
}

#[test]
fn extensions_are_lower_case() {
    assert_eq!(document_extension("Book.PDF"), "pdf");
    assert_eq!(document_extension("dir/novel.Epub"), "epub");
    assert_eq!(document_extension("notes"), "");
    assert_eq!(document_extension(".bashrc"), "");
    assert_eq!(document_extension("archive.tar.gz"), "gz");
    assert!(is_book("sr"));
    assert!(!is_book("SR"));
}

#[test]
fn documents_are_loaded_by_extension() {
    assert_eq!(compile_source("txt"), Some(SourceLoad::Txt));
    assert_eq!(compile_source("docx"), Some(SourceLoad::Docx));
    assert_eq!(compile_source("pdf"), Some(SourceLoad::PdfPages { start: 1, end: 999999 }));
    assert_eq!(compile_source("sr"), None);
    assert_eq!(document_source("sr"), Some(SourceLoad::Sr));
    assert_eq!(document_source("epub"), Some(SourceLoad::Epub));
    assert_eq!(document_source("mobi"), None);
}

#[test]
fn pdf_sessions_may_be_cut() {
    assert_eq!(session_source("pdf", &args(&["s", "a.pdf", "-c", "3"])), Some(SourceLoad::PdfChapter { chapter: 3 }));
    assert_eq!(session_source("pdf", &args(&["s", "a.pdf", "-c", "x"])), Some(SourceLoad::PdfChapter { chapter: 1 }));
    assert_eq!(session_source("pdf", &args(&["s", "a.pdf", "-p", "2", "5"])), Some(SourceLoad::PdfPages { start: 2, end: 5 }));
    assert_eq!(session_source("pdf", &args(&["s", "a.pdf", "--pages", "4"])), Some(SourceLoad::PdfPages { start: 4, end: 4 }));
    assert_eq!(session_source("pdf", &args(&["s", "a.pdf", "-p"])), Some(SourceLoad::PdfPages { start: 1, end: 1 }));
    assert_eq!(session_source("pdf", &args(&["s", "a.pdf"])), Some(SourceLoad::PdfPages { start: 1, end: 999999 }));
    assert_eq!(session_source("sr", &args(&["s", "a.sr", "-c", "3"])), Some(SourceLoad::Sr));
    assert_eq!(session_source("odt", &args(&["s", "a.odt"])), None);
}

#[test]
fn reading_starts_where_asked() {
    let a = args(&["s", "a.txt", "-p", "3"]);
    assert_eq!(determine_start_index(&a, "txt", 0, 1000, -1), Some(500));
    assert_eq!(determine_start_index(&a, "txt", 0, 400, -1), Some(399));
    assert_eq!(determine_start_index(&args(&["s", "a.pdf", "-p", "3"]), "pdf", 0, 1000, -1), Some(0));
    assert_eq!(determine_start_index(&args(&["s", "a.sr"]), "sr", 42, 1000, -1), Some(42));
    assert_eq!(determine_start_index(&args(&["s", "a.txt", "-w", "9999"]), "txt", 0, 100, -1), Some(99));
    assert_eq!(determine_start_index(&args(&["s", "a.txt", "-w", "x"]), "txt", 0, 100, -1), Some(0));
    assert_eq!(determine_start_index(&args(&["s", "a.txt", "-w", "5"]), "txt", 0, 0, -1), Some(0));
    assert_eq!(determine_start_index(&args(&["s", "a.txt", "-p", "0"]), "txt", 0, 1000, -1), Some(0));
    let huge = format!("{}", usize::MAX);
    assert_eq!(determine_start_index(&args(&["s", "a.txt", "-p", &huge]), "txt", 0, 1000, -1), None);
}

#[test]
fn chapters_of_books_come_from_the_engine() {
    let a = args(&["s", "a.sr", "-c", "2"]);
    assert_eq!(chapter_request(&a, "sr"), Some(2));
    assert_eq!(chapter_request(&a, "txt"), None);
    assert_eq!(chapter_request(&args(&["s", "a.sr", "-c"]), "sr"), None);
    assert_eq!(chapter_request(&args(&["s", "a.sr", "-c", "two"]), "sr"), Some(1));
    assert_eq!(determine_start_index(&a, "sr", 42, 1000, 700), Some(700));
    assert_eq!(determine_start_index(&a, "sr", 42, 1000, -1), Some(42));
    assert_eq!(determine_start_index(&a, "sr", 42, 1000, -5), Some(999));
    assert_eq!(determine_start_index(&a, "txt", 42, 1000, 700), Some(0));
    assert_eq!(determine_start_index(&args(&["s", "a.txt", "-c", "2", "-w", "9"]), "txt", 0, 1000, -1), Some(0));
}

#[test]
fn page_counts_for_estimates() {
    assert_eq!(words_in_pages(4), Some(1000));
    assert_eq!(words_in_pages(0), Some(0));
    assert_eq!(words_in_pages(usize::MAX / 100), None);
}

#[test]
fn chapters_are_added_to_books_only() {
    assert_eq!(check_add_chapter("sr", "Introduction"), Ok(()));
    assert_eq!(check_add_chapter("txt", "Introduction"), Err(ChapterError::NotABook));
    assert_eq!(check_add_chapter("sr", &"x".repeat(63)), Ok(()));
    assert_eq!(check_add_chapter("sr", &"x".repeat(64)), Err(ChapterError::TitleTooLong));
    assert_eq!(check_add_chapter("sr", &"é".repeat(32)), Err(ChapterError::TitleTooLong));
}

#[test]
fn engine_numbers_are_converted_as_casts_do() {
    assert_eq!(engine_index(5), 5);
    assert_eq!(engine_index(-1), usize::MAX);
    assert_eq!(engine_index(-5), (-5i32) as usize);
    assert_eq!(engine_index(i32::MIN), i32::MIN as usize);
    assert_eq!(engine_word_index(7), 7);
    assert_eq!(engine_word_index(usize::MAX), -1);
    assert_eq!(engine_chapter_page(0), 1);
    assert_eq!(engine_chapter_page(249), 1);
    assert_eq!(engine_chapter_page(250), 2);
    assert_eq!(engine_chapter_page(-300), 0);
    assert_eq!(engine_page_count(-251), -1);
    assert_eq!(engine_page_count(1000), 4);
    assert_eq!(engine_page_count(i32::MIN), i32::MIN / 250);
}

#[test]
fn printed_pages_lead_back_to_their_first_word() {
    for i in [0usize, 1, 249, 250, 251, 499, 500, 777, 999] {
        let page = speedreader::paging::page_of_word(i);
        let a = args(&["speedreader", "f.txt", "-p", &page.to_string()]);
        assert_eq!(determine_start_index(&a, "txt", 0, 1000, -1), Some(i - i % 250), "{}", i);
    }
}

#[test]
fn statistics_and_saved_positions() {
    assert!(counts_pdf_chapters("pdf"));
    assert!(!counts_pdf_chapters("txt"));
    assert!(has_saved_position(Some(SourceLoad::Sr)));
    assert!(!has_saved_position(Some(SourceLoad::Txt)));
    assert!(!has_saved_position(None));
}

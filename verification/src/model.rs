use vstd::prelude::*;
use crate::registry::BookName;

verus! {

/// The supported textual editions: a closed set, extended only by adding a
/// member here together with an embedded snapshot for it.
#[derive(Debug, Clone, Copy, PartialEq, Eq, Structural, Hash)]
pub enum Edition {
    EnglishKingJames,
    EnglishASV,
}

impl Default for Edition {
    fn default() -> (r: Self)
        ensures
            r == Edition::EnglishKingJames,
    {
        Edition::EnglishKingJames
    }
}

/// One verse: its number, unique within its chapter, and its full text.
pub struct Verse {
    pub number: u32,
    pub text: String,
}

/// The mathematical value of a [`Verse`].
pub struct VerseView {
    pub number: u32,
    pub text: Seq<char>,
}

impl View for Verse {
    type V = VerseView;

    open spec fn view(&self) -> VerseView {
        VerseView { number: self.number, text: self.text@ }
    }
}

/// One chapter: its number, unique within its book, and its verses in
/// document order.
pub struct Chapter {
    pub number: u32,
    pub verses: Vec<Verse>,
}

/// The mathematical value of a [`Chapter`].
pub struct ChapterView {
    pub number: u32,
    pub verses: Seq<VerseView>,
}

impl View for Chapter {
    type V = ChapterView;

    open spec fn view(&self) -> ChapterView {
        ChapterView { number: self.number, verses: self.verses@.map_values(|v: Verse| v@) }
    }
}

/// One book: its identity and its chapters in document order.
pub struct Book {
    pub name: BookName,
    pub chapters: Vec<Chapter>,
}

/// The mathematical value of a [`Book`].
pub struct BookView {
    pub name: BookName,
    pub chapters: Seq<ChapterView>,
}

impl View for Book {
    type V = BookView;

    open spec fn view(&self) -> BookView {
        BookView { name: self.name, chapters: self.chapters@.map_values(|c: Chapter| c@) }
    }
}

/// The full corpus for one edition: its books in canonical order. Built once,
/// by the importer or by the codec, and read-only afterwards.
pub struct Bible {
    pub books: Vec<Book>,
    pub edition: Edition,
}

/// The mathematical value of a [`Bible`].
pub struct BibleView {
    pub books: Seq<BookView>,
    pub edition: Edition,
}

impl View for Bible {
    type V = BibleView;

    open spec fn view(&self) -> BibleView {
        BibleView { books: self.books@.map_values(|b: Book| b@), edition: self.edition }
    }
}

/// An address of one verse; a plain value that owns no corpus data.
#[derive(Debug, Clone, Copy, PartialEq, Eq, Structural)]
pub struct VerseReference {
    pub book_name: BookName,
    pub chapter_number: u32,
    pub verse_number: u32,
}

impl VerseReference {
    pub fn new(book_name: BookName, chapter_number: u32, verse_number: u32) -> (r: VerseReference)
        ensures
            r == (VerseReference { book_name, chapter_number, verse_number }),
    {
        VerseReference { book_name, chapter_number, verse_number }
    }

    /// The address of the chapter this verse stands in.
    pub fn get_chapter_reference(&self) -> (r: ChapterReference)
        ensures
            r == (ChapterReference {
                book_name: self.book_name,
                chapter_number: self.chapter_number,
            }),
    {
        ChapterReference::new(self.book_name, self.chapter_number)
    }
}

/// An address of one chapter; a plain value that owns no corpus data.
#[derive(Debug, Clone, Copy, PartialEq, Eq, Structural)]
pub struct ChapterReference {
    pub book_name: BookName,
    pub chapter_number: u32,
}

impl ChapterReference {
    pub fn new(book_name: BookName, chapter_number: u32) -> (r: ChapterReference)
        ensures
            r == (ChapterReference { book_name, chapter_number }),
    {
        ChapterReference { book_name, chapter_number }
    }
}

/// The verses that matched a search, as references in corpus order.
pub struct SearchResults {
    pub references: Vec<VerseReference>,
}

/// Verse numbers are unique within the chapter.
pub open spec fn wf_chapter(c: ChapterView) -> bool {
    forall|i: int, j: int|
        0 <= i < j < c.verses.len() ==> c.verses[i].number != c.verses[j].number
}

/// Chapter numbers are unique within the book, and every chapter is
/// internally well formed.
pub open spec fn wf_book(b: BookView) -> bool {
    &&& forall|i: int, j: int|
        0 <= i < j < b.chapters.len() ==> b.chapters[i].number != b.chapters[j].number
    &&& forall|i: int| 0 <= i < b.chapters.len() ==> wf_chapter(#[trigger] b.chapters[i])
}

/// The corpus invariant: book identities are unique, books stand in
/// canonical ordinal order, and every book is internally well formed.
pub open spec fn wf_bible(b: BibleView) -> bool {
    &&& forall|i: int, j: int|
        0 <= i < j < b.books.len()
            ==> b.books[i].name.spec_ordinal() < b.books[j].name.spec_ordinal()
    &&& forall|i: int| 0 <= i < b.books.len() ==> wf_book(#[trigger] b.books[i])
}

/// Verse numbers ascend in document order within the chapter.
pub open spec fn sorted_chapter(c: ChapterView) -> bool {
    forall|i: int, j: int|
        0 <= i < j < c.verses.len() ==> c.verses[i].number < c.verses[j].number
}

/// Chapter numbers ascend within the book and every chapter is sorted.
pub open spec fn sorted_book(b: BookView) -> bool {
    &&& forall|i: int, j: int|
        0 <= i < j < b.chapters.len() ==> b.chapters[i].number < b.chapters[j].number
    &&& forall|i: int| 0 <= i < b.chapters.len() ==> sorted_chapter(#[trigger] b.chapters[i])
}

/// The ordering a well-formed source document yields on top of [`wf_bible`]:
/// chapter numbers ascend within each book and verse numbers ascend within
/// each chapter, so document order and numeric order agree.
pub open spec fn sorted_bible(b: BibleView) -> bool {
    forall|i: int| 0 <= i < b.books.len() ==> sorted_book(#[trigger] b.books[i])
}

} // verus!

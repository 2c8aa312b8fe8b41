use vstd::prelude::*;
use crate::model::{
    sorted_bible, sorted_book, sorted_chapter, wf_bible, Bible, BibleView, BookView, Chapter,
    ChapterReference, ChapterView, SearchResults, Verse, VerseReference, VerseView,
};
use crate::registry::BookName;

verus! {

/// Does `q` stand in `t` as a literal substring beginning at index `i`?
pub open spec fn matches_at(t: Seq<char>, q: Seq<char>, i: int) -> bool {
    0 <= i && i + q.len() <= t.len() && t.subrange(i, i + q.len()) == q
}

/// Does `t` contain `q` as a literal, case-sensitive substring? The empty
/// query is contained in every text.
pub open spec fn text_contains(t: Seq<char>, q: Seq<char>) -> bool {
    exists|i: int| matches_at(t, q, i)
}

/// Whether `q` stands in `t` beginning exactly at index `i`.
fn match_at(t: &str, q: &str, i: usize, tn: usize, qn: usize) -> (r: bool)
    requires
        tn == t@.len(),
        qn == q@.len(),
        i + qn <= tn,
    ensures
        r == matches_at(t@, q@, i as int),
{
    let mut j: usize = 0;
    while j < qn
        invariant
            tn == t@.len(),
            qn == q@.len(),
            i + qn <= tn,
            j <= qn,
            forall|m: int| 0 <= m < j ==> t@[i + m] == q@[m],
        decreases qn - j,
    {
        if t.get_char(i + j) != q.get_char(j) {
            assert(!matches_at(t@, q@, i as int)) by {
                if t@.subrange(i as int, i + qn) == q@ {
                    assert(t@.subrange(i as int, i + qn)[j as int] == t@[i + j]);
                }
            }
            return false;
        }
        j += 1;
    }
    assert(t@.subrange(i as int, i + qn) =~= q@);
    true
}

/// Whether `t` contains `q` as a literal, case-sensitive substring.
pub fn str_contains(t: &str, q: &str) -> (r: bool)
    ensures
        r == text_contains(t@, q@),
{
    let tn = t.unicode_len();
    let qn = q.unicode_len();
    if qn > tn {
        return false;
    }
    if qn == 0 {
        assert(t@.subrange(0, 0) =~= q@);
        assert(matches_at(t@, q@, 0));
        return true;
    }
    let mut i: usize = 0;
    while i <= tn - qn
        invariant
            tn == t@.len(),
            qn == q@.len(),
            qn <= tn,
            0 < qn,
            i <= tn - qn + 1,
            forall|k: int| 0 <= k < i ==> !matches_at(t@, q@, k),
        decreases tn - qn + 1 - i,
    {
        if match_at(t, q, i, tn, qn) {
            return true;
        }
        i += 1;
    }
    false
}

/// The first book with the given identity, scanning in order.
pub open spec fn spec_find_book(books: Seq<BookView>, name: BookName) -> Option<BookView>
    decreases books.len(),
{
    if books.len() == 0 {
        None
    } else if books[0].name == name {
        Some(books[0])
    } else {
        spec_find_book(books.drop_first(), name)
    }
}

/// The first chapter with the given number, scanning in order.
pub open spec fn spec_find_chapter(chapters: Seq<ChapterView>, number: u32) -> Option<ChapterView>
    decreases chapters.len(),
{
    if chapters.len() == 0 {
        None
    } else if chapters[0].number == number {
        Some(chapters[0])
    } else {
        spec_find_chapter(chapters.drop_first(), number)
    }
}

/// The first verse with the given number, scanning in document order.
pub open spec fn spec_find_verse(verses: Seq<VerseView>, number: u32) -> Option<VerseView>
    decreases verses.len(),
{
    if verses.len() == 0 {
        None
    } else if verses[0].number == number {
        Some(verses[0])
    } else {
        spec_find_verse(verses.drop_first(), number)
    }
}

/// What resolving a chapter reference yields: the first book with that
/// identity, then the first chapter in it with that number.
pub open spec fn spec_get_chapter(b: BibleView, r: ChapterReference) -> Option<ChapterView> {
    match spec_find_book(b.books, r.book_name) {
        Some(book) => spec_find_chapter(book.chapters, r.chapter_number),
        None => None,
    }
}

/// What resolving a verse reference yields.
pub open spec fn spec_get_verse(b: BibleView, r: VerseReference) -> Option<VerseView> {
    match spec_get_chapter(
        b,
        ChapterReference { book_name: r.book_name, chapter_number: r.chapter_number },
    ) {
        Some(chapter) => spec_find_verse(chapter.verses, r.verse_number),
        None => None,
    }
}

/// The references to the matching verses of one chapter, in document order.
pub open spec fn refs_of_verses(
    name: BookName,
    chapter: u32,
    verses: Seq<VerseView>,
    q: Seq<char>,
) -> Seq<VerseReference>
    decreases verses.len(),
{
    if verses.len() == 0 {
        Seq::empty()
    } else {
        refs_of_verses(name, chapter, verses.drop_last(), q) + (
        if text_contains(verses.last().text, q) {
            seq![
                VerseReference {
                    book_name: name,
                    chapter_number: chapter,
                    verse_number: verses.last().number,
                },
            ]
        } else {
            Seq::empty()
        })
    }
}

/// The references to the matching verses of one book, chapter by chapter.
pub open spec fn refs_of_chapters(
    name: BookName,
    chapters: Seq<ChapterView>,
    q: Seq<char>,
) -> Seq<VerseReference>
    decreases chapters.len(),
{
    if chapters.len() == 0 {
        Seq::empty()
    } else {
        refs_of_chapters(name, chapters.drop_last(), q) + refs_of_verses(
            name,
            chapters.last().number,
            chapters.last().verses,
            q,
        )
    }
}

/// The references to the matching verses of the whole corpus, book by book.
pub open spec fn refs_of_books(books: Seq<BookView>, q: Seq<char>) -> Seq<VerseReference>
    decreases books.len(),
{
    if books.len() == 0 {
        Seq::empty()
    } else {
        refs_of_books(books.drop_last(), q) + refs_of_chapters(
            books.last().name,
            books.last().chapters,
            q,
        )
    }
}

/// Every verse whose text contains the query, in corpus order.
pub open spec fn spec_search(b: BibleView, q: Seq<char>) -> Seq<VerseReference> {
    refs_of_books(b.books, q)
}

impl Bible {
    /// The chapter the reference addresses, or nothing when either the book
    /// or the chapter number misses. A miss is a normal outcome, not an
    /// error.
    pub fn get_chapter(&self, reference: &ChapterReference) -> (r: Option<&Chapter>)
        ensures
            match r {
                Some(c) => spec_get_chapter(self@, *reference) == Some(c@),
                None => spec_get_chapter(self@, *reference) is None,
            },
    {
        proof {
            assert(self@.books.skip(0) =~= self@.books);
        }
        let mut i: usize = 0;
        while i < self.books.len()
            invariant
                i <= self.books.len(),
                self@.books.len() == self.books.len(),
                spec_find_book(self@.books.skip(i as int), reference.book_name)
                    == spec_find_book(self@.books, reference.book_name),
                forall|k: int|
                    0 <= k < i ==> self@.books[k].name != reference.book_name,
            decreases self.books.len() - i,
        {
            assert(self@.books.skip(i as int)[0] == self@.books[i as int]);
            if self.books[i].name == reference.book_name {
                let book = &self.books[i];
                proof {
                    assert(book@ == self@.books[i as int]);
                    assert(spec_find_book(self@.books, reference.book_name) == Some(book@));
                    assert(book@.chapters.skip(0) =~= book@.chapters);
                }
                let mut j: usize = 0;
                while j < book.chapters.len()
                    invariant
                        j <= book.chapters.len(),
                        book@.chapters.len() == book.chapters.len(),
                        spec_find_book(self@.books, reference.book_name) == Some(book@),
                        spec_find_chapter(book@.chapters.skip(j as int), reference.chapter_number)
                            == spec_find_chapter(book@.chapters, reference.chapter_number),
                    decreases book.chapters.len() - j,
                {
                    assert(book@.chapters.skip(j as int)[0] == book@.chapters[j as int]);
                    if book.chapters[j].number == reference.chapter_number {
                        proof {
                            assert(book@.chapters[j as int] == book.chapters@[j as int]@);
                            assert(spec_find_chapter(book@.chapters, reference.chapter_number)
                                == Some(book@.chapters[j as int]));
                        }
                        let c = &book.chapters[j];
                        proof {
                            assert(c@ == book.chapters@[j as int]@);
                            let fb = spec_find_book(self@.books, reference.book_name);
                            assert(fb == Some(book@));
                            let fc = spec_find_chapter(book@.chapters, reference.chapter_number);
                            assert(fc == Some(book@.chapters[j as int]));
                            assert(book@.chapters[j as int] == c@);
                            assert(spec_get_chapter(self@, *reference) == fc);
                        }
                        return Some(c);
                    }
                    assert(book@.chapters.skip(j as int).drop_first() =~= book@.chapters.skip(
                        j as int + 1,
                    ));
                    j += 1;
                }
                assert(book@.chapters.skip(j as int) =~= Seq::<ChapterView>::empty());
                return None;
            }
            assert(self@.books.skip(i as int).drop_first() =~= self@.books.skip(i as int + 1));
            i += 1;
        }
        assert(self@.books.skip(i as int) =~= Seq::<BookView>::empty());
        None
    }

    /// The verse the reference addresses, or nothing when the book, the
    /// chapter or the verse number misses.
    pub fn get_verse(&self, reference: &VerseReference) -> (r: Option<&Verse>)
        ensures
            match r {
                Some(v) => spec_get_verse(self@, *reference) == Some(v@),
                None => spec_get_verse(self@, *reference) is None,
            },
    {
        let chapter_reference = reference.get_chapter_reference();
        match self.get_chapter(&chapter_reference) {
            None => None,
            Some(chapter) => {
                proof {
                    assert(chapter@.verses.skip(0) =~= chapter@.verses);
                }
                let mut j: usize = 0;
                while j < chapter.verses.len()
                    invariant
                        j <= chapter.verses.len(),
                        chapter@.verses.len() == chapter.verses.len(),
                        spec_get_chapter(
                            self@,
                            ChapterReference {
                                book_name: reference.book_name,
                                chapter_number: reference.chapter_number,
                            },
                        ) == Some(chapter@),
                        spec_find_verse(chapter@.verses.skip(j as int), reference.verse_number)
                            == spec_find_verse(chapter@.verses, reference.verse_number),
                    decreases chapter.verses.len() - j,
                {
                    assert(chapter@.verses.skip(j as int)[0] == chapter@.verses[j as int]);
                    if chapter.verses[j].number == reference.verse_number {
                        proof {
                            assert(chapter@.verses[j as int] == chapter.verses@[j as int]@);
                            assert(spec_find_verse(chapter@.verses, reference.verse_number)
                                == Some(chapter@.verses[j as int]));
                        }
                        let v = &chapter.verses[j];
                        proof {
                            assert(v@ == chapter.verses@[j as int]@);
                            let fc = spec_get_chapter(
                                self@,
                                ChapterReference {
                                    book_name: reference.book_name,
                                    chapter_number: reference.chapter_number,
                                },
                            );
                            assert(fc == Some(chapter@));
                            let fv = spec_find_verse(chapter@.verses, reference.verse_number);
                            assert(fv == Some(chapter@.verses[j as int]));
                            assert(chapter@.verses[j as int] == v@);
                            assert(spec_get_verse(self@, *reference) == fv);
                        }
                        return Some(v);
                    }
                    assert(chapter@.verses.skip(j as int).drop_first() =~= chapter@.verses.skip(
                        j as int + 1,
                    ));
                    j += 1;
                }
                assert(chapter@.verses.skip(j as int) =~= Seq::<VerseView>::empty());
                None
            },
        }
    }

    /// Scans every verse in corpus order and collects a reference for each
    /// one whose text contains the query as a literal, case-sensitive
    /// substring. The empty query matches every verse.
    pub fn search(&self, query: &str) -> (r: SearchResults)
        ensures
            r.references@ == spec_search(self@, query@),
    {
        let mut references: Vec<VerseReference> = Vec::new();
        let mut i: usize = 0;
        while i < self.books.len()
            invariant
                i <= self.books.len(),
                self@.books.len() == self.books.len(),
                references@ == refs_of_books(self@.books.take(i as int), query@),
            decreases self.books.len() - i,
        {
            let book = &self.books[i];
            let ghost books_prefix = self@.books.take(i as int);
            let mut j: usize = 0;
            while j < book.chapters.len()
                invariant
                    j <= book.chapters.len(),
                    book@ == self@.books[i as int],
                    book@.chapters.len() == book.chapters.len(),
                    books_prefix == self@.books.take(i as int),
                    references@ == refs_of_books(books_prefix, query@) + refs_of_chapters(
                        book@.name,
                        book@.chapters.take(j as int),
                        query@,
                    ),
                decreases book.chapters.len() - j,
            {
                let chapter = &book.chapters[j];
                let ghost chapters_prefix = book@.chapters.take(j as int);
                let mut k: usize = 0;
                while k < chapter.verses.len()
                    invariant
                        k <= chapter.verses.len(),
                        book@ == self@.books[i as int],
                        chapter@ == book@.chapters[j as int],
                        chapter@.verses.len() == chapter.verses.len(),
                        books_prefix == self@.books.take(i as int),
                        chapters_prefix == book@.chapters.take(j as int),
                        references@ == refs_of_books(books_prefix, query@) + refs_of_chapters(
                            book@.name,
                            chapters_prefix,
                            query@,
                        ) + refs_of_verses(
                            book@.name,
                            chapter@.number,
                            chapter@.verses.take(k as int),
                            query@,
                        ),
                    decreases chapter.verses.len() - k,
                {
                    let verse = &chapter.verses[k];
                    let ghost verses_next = chapter@.verses.take(k as int + 1);
                    proof {
                        assert(verses_next.drop_last() =~= chapter@.verses.take(k as int));
                        assert(verses_next.last() == chapter@.verses[k as int]);
                    }
                    if str_contains(verse.text.as_str(), query) {
                        references.push(
                            VerseReference {
                                book_name: book.name,
                                chapter_number: chapter.number,
                                verse_number: verse.number,
                            },
                        );
                    }
                    k += 1;
                }
                proof {
                    assert(chapter@.verses.take(chapter@.verses.len() as int) =~= chapter@.verses);
                    let chapters_next = book@.chapters.take(j as int + 1);
                    assert(chapters_next.drop_last() =~= chapters_prefix);
                    assert(chapters_next.last() == book@.chapters[j as int]);
                }
                j += 1;
            }
            proof {
                assert(book@.chapters.take(book@.chapters.len() as int) =~= book@.chapters);
                let books_next = self@.books.take(i as int + 1);
                assert(books_next.drop_last() =~= books_prefix);
                assert(books_next.last() == self@.books[i as int]);
            }
            i += 1;
        }
        proof {
            assert(self@.books.take(self@.books.len() as int) =~= self@.books);
        }
        SearchResults { references }
    }
}


/// The order search results come back in: canonical book order first, then
/// chapter number, then verse number.
pub open spec fn ref_before(a: VerseReference, b: VerseReference) -> bool {
    ||| a.book_name.spec_ordinal() < b.book_name.spec_ordinal()
    ||| (a.book_name == b.book_name && a.chapter_number < b.chapter_number)
    ||| (a.book_name == b.book_name && a.chapter_number == b.chapter_number && a.verse_number
        < b.verse_number)
}

proof fn lemma_refs_of_verses_props(name: BookName, cnum: u32, vs: Seq<VerseView>, q: Seq<char>)
    ensures
        forall|m: int|
            0 <= m < refs_of_verses(name, cnum, vs, q).len() ==> {
                let r = #[trigger] refs_of_verses(name, cnum, vs, q)[m];
                r.book_name == name && r.chapter_number == cnum && exists|p: int|
                    0 <= p < vs.len() && (#[trigger] vs[p]).number == r.verse_number
                        && text_contains(vs[p].text, q)
            },
        (forall|i: int, j: int| 0 <= i < j < vs.len() ==> vs[i].number < vs[j].number) ==> forall|
            a: int,
            c: int,
        |
            0 <= a < c < refs_of_verses(name, cnum, vs, q).len() ==> refs_of_verses(
                name,
                cnum,
                vs,
                q,
            )[a].verse_number < refs_of_verses(name, cnum, vs, q)[c].verse_number,
    decreases vs.len(),
{
    if vs.len() == 0 {
    } else {
        let pre = vs.drop_last();
        lemma_refs_of_verses_props(name, cnum, pre, q);
        let rp = refs_of_verses(name, cnum, pre, q);
        let rall = refs_of_verses(name, cnum, vs, q);
        assert forall|m: int| 0 <= m < rall.len() implies {
            let r = #[trigger] rall[m];
            r.book_name == name && r.chapter_number == cnum && exists|p: int|
                0 <= p < vs.len() && (#[trigger] vs[p]).number == r.verse_number
                    && text_contains(vs[p].text, q)
        } by {
            if m < rp.len() {
                assert(rall[m] == rp[m]);
                let p = choose|p: int|
                    0 <= p < pre.len() && (#[trigger] pre[p]).number == rp[m].verse_number
                        && text_contains(pre[p].text, q);
                assert(vs[p] == pre[p]);
            } else {
                assert(text_contains(vs.last().text, q));
                assert(rall[m].verse_number == vs.last().number);
                assert(vs[vs.len() - 1].number == rall[m].verse_number);
            }
        }
        if forall|i: int, j: int| 0 <= i < j < vs.len() ==> vs[i].number < vs[j].number {
            assert forall|a: int, c: int| 0 <= a < c < rall.len() implies rall[a].verse_number
                < rall[c].verse_number by {
                if c < rp.len() {
                    assert(rall[a] == rp[a] && rall[c] == rp[c]);
                } else {
                    assert(rall[a] == rp[a]);
                    assert(rall[c].verse_number == vs.last().number);
                    let p = choose|p: int|
                        0 <= p < pre.len() && (#[trigger] pre[p]).number == rp[a].verse_number
                            && text_contains(pre[p].text, q);
                    assert(vs[p].number < vs[vs.len() - 1].number);
                }
            }
        }
    }
}

proof fn lemma_refs_of_chapters_props(name: BookName, cs: Seq<ChapterView>, q: Seq<char>)
    ensures
        forall|m: int|
            0 <= m < refs_of_chapters(name, cs, q).len() ==> {
                let r = #[trigger] refs_of_chapters(name, cs, q)[m];
                r.book_name == name && exists|c: int|
                    0 <= c < cs.len() && (#[trigger] cs[c]).number == r.chapter_number && exists|
                        p: int,
                    |
                        0 <= p < cs[c].verses.len() && (#[trigger] cs[c].verses[p]).number
                            == r.verse_number && text_contains(cs[c].verses[p].text, q)
            },
        ((forall|i: int, j: int| 0 <= i < j < cs.len() ==> cs[i].number < cs[j].number)
            && (forall|i: int| 0 <= i < cs.len() ==> sorted_chapter(#[trigger] cs[i]))) ==> forall|
            a: int,
            c: int,
        |
            0 <= a < c < refs_of_chapters(name, cs, q).len() ==> (#[trigger] refs_of_chapters(
                name,
                cs,
                q,
            )[a]).chapter_number < (#[trigger] refs_of_chapters(name, cs, q)[c]).chapter_number
                || (refs_of_chapters(name, cs, q)[a].chapter_number == refs_of_chapters(
                name,
                cs,
                q,
            )[c].chapter_number && refs_of_chapters(name, cs, q)[a].verse_number
                < refs_of_chapters(name, cs, q)[c].verse_number),
    decreases cs.len(),
{
    if cs.len() == 0 {
    } else {
        let pre = cs.drop_last();
        lemma_refs_of_chapters_props(name, pre, q);
        lemma_refs_of_verses_props(name, cs.last().number, cs.last().verses, q);
        let rp = refs_of_chapters(name, pre, q);
        let rl = refs_of_verses(name, cs.last().number, cs.last().verses, q);
        let rall = refs_of_chapters(name, cs, q);
        assert forall|m: int| 0 <= m < rall.len() implies {
            let r = #[trigger] rall[m];
            r.book_name == name && exists|c: int|
                0 <= c < cs.len() && (#[trigger] cs[c]).number == r.chapter_number && exists|
                    p: int,
                |
                    0 <= p < cs[c].verses.len() && (#[trigger] cs[c].verses[p]).number
                        == r.verse_number && text_contains(cs[c].verses[p].text, q)
        } by {
            if m < rp.len() {
                assert(rall[m] == rp[m]);
                let c = choose|c: int|
                    0 <= c < pre.len() && (#[trigger] pre[c]).number == rp[m].chapter_number
                        && exists|p: int|
                        0 <= p < pre[c].verses.len() && (#[trigger] pre[c].verses[p]).number
                            == rp[m].verse_number && text_contains(pre[c].verses[p].text, q);
                assert(cs[c] == pre[c]);
            } else {
                assert(rall[m] == rl[m - rp.len()]);
                assert(cs[cs.len() - 1] == cs.last());
                assert(cs.last().number == rall[m].chapter_number);
            }
        }
        if (forall|i: int, j: int| 0 <= i < j < cs.len() ==> cs[i].number < cs[j].number)
            && (forall|i: int| 0 <= i < cs.len() ==> sorted_chapter(#[trigger] cs[i])) {
            assert forall|i: int, j: int|
                0 <= i < j < pre.len() implies pre[i].number < pre[j].number by {
                assert(pre[i] == cs[i] && pre[j] == cs[j]);
            }
            assert forall|i: int| 0 <= i < pre.len() implies sorted_chapter(#[trigger] pre[i]) by {
                assert(pre[i] == cs[i]);
                assert(sorted_chapter(cs[i]));
            }
            assert(sorted_chapter(cs.last())) by {
                assert(cs[cs.len() - 1] == cs.last());
                assert(sorted_chapter(cs[cs.len() - 1]));
            }
            assert forall|a: int, c: int|
                0 <= a < c < rall.len() implies (#[trigger] rall[a]).chapter_number < (
            #[trigger] rall[c]).chapter_number || (rall[a].chapter_number == rall[c].chapter_number
                && rall[a].verse_number < rall[c].verse_number) by {
                if c < rp.len() {
                    assert(rall[a] == rp[a] && rall[c] == rp[c]);
                } else if a >= rp.len() {
                    assert(rall[a] == rl[a - rp.len()] && rall[c] == rl[c - rp.len()]);
                    assert(rall[a].chapter_number == cs.last().number);
                    assert(rall[c].chapter_number == cs.last().number);
                } else {
                    assert(rall[a] == rp[a]);
                    assert(rall[c] == rl[c - rp.len()]);
                    assert(rall[c].chapter_number == cs.last().number);
                    let cc = choose|cc: int|
                        0 <= cc < pre.len() && (#[trigger] pre[cc]).number == rp[a].chapter_number
                            && exists|p: int|
                            0 <= p < pre[cc].verses.len() && (#[trigger] pre[cc].verses[p]).number
                                == rp[a].verse_number && text_contains(pre[cc].verses[p].text, q);
                    assert(cs[cc].number < cs[cs.len() - 1].number);
                }
            }
        }
    }
}

proof fn lemma_refs_of_books_props(bs: Seq<BookView>, q: Seq<char>)
    ensures
        forall|m: int|
            0 <= m < refs_of_books(bs, q).len() ==> {
                let r = #[trigger] refs_of_books(bs, q)[m];
                exists|b: int|
                    0 <= b < bs.len() && (#[trigger] bs[b]).name == r.book_name && exists|c: int|
                        0 <= c < bs[b].chapters.len() && (#[trigger] bs[b].chapters[c]).number
                            == r.chapter_number && exists|p: int|
                            0 <= p < bs[b].chapters[c].verses.len() && (#[trigger] bs[b].chapters[c].verses[p]).number == r.verse_number && text_contains(
                                bs[b].chapters[c].verses[p].text,
                                q,
                            )
            },
        ((forall|a: int, c: int|
            0 <= a < c < bs.len() ==> bs[a].name.spec_ordinal() < bs[c].name.spec_ordinal())
            && (forall|i: int| 0 <= i < bs.len() ==> sorted_book(#[trigger] bs[i]))) ==> forall|
            a: int,
            c: int,
        |
            0 <= a < c < refs_of_books(bs, q).len() ==> ref_before(
                refs_of_books(bs, q)[a],
                refs_of_books(bs, q)[c],
            ),
    decreases bs.len(),
{
    if bs.len() == 0 {
    } else {
        let pre = bs.drop_last();
        lemma_refs_of_books_props(pre, q);
        lemma_refs_of_chapters_props(bs.last().name, bs.last().chapters, q);
        let rp = refs_of_books(pre, q);
        let rl = refs_of_chapters(bs.last().name, bs.last().chapters, q);
        let rall = refs_of_books(bs, q);
        assert forall|m: int| 0 <= m < rall.len() implies {
            let r = #[trigger] rall[m];
            exists|b: int|
                0 <= b < bs.len() && (#[trigger] bs[b]).name == r.book_name && exists|c: int|
                    0 <= c < bs[b].chapters.len() && (#[trigger] bs[b].chapters[c]).number
                        == r.chapter_number && exists|p: int|
                        0 <= p < bs[b].chapters[c].verses.len() && (#[trigger] bs[b].chapters[c].verses[p]).number == r.verse_number && text_contains(
                            bs[b].chapters[c].verses[p].text,
                            q,
                        )
        } by {
            if m < rp.len() {
                assert(rall[m] == rp[m]);
                let b = choose|b: int|
                    0 <= b < pre.len() && (#[trigger] pre[b]).name == rp[m].book_name && exists|
                        c: int,
                    |
                        0 <= c < pre[b].chapters.len() && (#[trigger] pre[b].chapters[c]).number
                            == rp[m].chapter_number && exists|p: int|
                            0 <= p < pre[b].chapters[c].verses.len() && (#[trigger] pre[b].chapters[c].verses[p]).number == rp[m].verse_number && text_contains(
                                pre[b].chapters[c].verses[p].text,
                                q,
                            );
                assert(bs[b] == pre[b]);
            } else {
                assert(rall[m] == rl[m - rp.len()]);
                assert(bs[bs.len() - 1] == bs.last());
            }
        }
        if (forall|a: int, c: int|
            0 <= a < c < bs.len() ==> bs[a].name.spec_ordinal() < bs[c].name.spec_ordinal())
            && (forall|i: int| 0 <= i < bs.len() ==> sorted_book(#[trigger] bs[i])) {
            assert forall|a: int, c: int|
                0 <= a < c < pre.len() implies pre[a].name.spec_ordinal()
                < pre[c].name.spec_ordinal() by {
                assert(pre[a] == bs[a] && pre[c] == bs[c]);
            }
            assert forall|i: int| 0 <= i < pre.len() implies sorted_book(#[trigger] pre[i]) by {
                assert(pre[i] == bs[i]);
                assert(sorted_book(bs[i]));
            }
            assert(sorted_book(bs.last())) by {
                assert(bs[bs.len() - 1] == bs.last());
                assert(sorted_book(bs[bs.len() - 1]));
            }
            let last = bs.last();
            assert forall|i: int, j: int|
                0 <= i < j < last.chapters.len() implies last.chapters[i].number
                < last.chapters[j].number by {}
            assert forall|i: int|
                0 <= i < last.chapters.len() implies sorted_chapter(
                #[trigger] last.chapters[i],
            ) by {}
            assert forall|a: int, c: int| 0 <= a < c < rall.len() implies ref_before(
                rall[a],
                rall[c],
            ) by {
                if c < rp.len() {
                    assert(rall[a] == rp[a] && rall[c] == rp[c]);
                } else if a >= rp.len() {
                    assert(rall[a] == rl[a - rp.len()] && rall[c] == rl[c - rp.len()]);
                    assert(rall[a].book_name == bs.last().name);
                } else {
                    assert(rall[a] == rp[a]);
                    assert(rall[c] == rl[c - rp.len()]);
                    assert(rall[c].book_name == bs.last().name);
                    let b = choose|b: int|
                        0 <= b < pre.len() && (#[trigger] pre[b]).name == rp[a].book_name
                            && exists|cc: int|
                            0 <= cc < pre[b].chapters.len() && (#[trigger] pre[b].chapters[cc]).number == rp[a].chapter_number && exists|p: int|
                                0 <= p < pre[b].chapters[cc].verses.len() && (#[trigger] pre[b].chapters[cc].verses[p]).number == rp[a].verse_number
                                    && text_contains(pre[b].chapters[cc].verses[p].text, q);
                    assert(bs[b].name.spec_ordinal() < bs[bs.len() - 1].name.spec_ordinal());
                }
            }
        }
    }
}

proof fn lemma_find_book_hits(books: Seq<BookView>, i: int)
    requires
        0 <= i < books.len(),
        forall|a: int, c: int|
            0 <= a < c < books.len() ==> books[a].name.spec_ordinal()
                < books[c].name.spec_ordinal(),
    ensures
        spec_find_book(books, books[i].name) == Some(books[i]),
    decreases i,
{
    if i == 0 {
    } else {
        assert(books[0].name.spec_ordinal() < books[i].name.spec_ordinal());
        assert(forall|a: int, c: int|
            0 <= a < c < books.drop_first().len() ==> books.drop_first()[a].name.spec_ordinal()
                < books.drop_first()[c].name.spec_ordinal());
        lemma_find_book_hits(books.drop_first(), i - 1);
        assert(books.drop_first()[i - 1] == books[i]);
    }
}

proof fn lemma_find_chapter_hits(chapters: Seq<ChapterView>, i: int)
    requires
        0 <= i < chapters.len(),
        forall|a: int, c: int|
            0 <= a < c < chapters.len() ==> chapters[a].number < chapters[c].number,
    ensures
        spec_find_chapter(chapters, chapters[i].number) == Some(chapters[i]),
    decreases i,
{
    if i == 0 {
    } else {
        assert(forall|a: int, c: int|
            0 <= a < c < chapters.drop_first().len() ==> chapters.drop_first()[a].number
                < chapters.drop_first()[c].number);
        lemma_find_chapter_hits(chapters.drop_first(), i - 1);
        assert(chapters.drop_first()[i - 1] == chapters[i]);
    }
}

proof fn lemma_find_verse_hits(verses: Seq<VerseView>, i: int)
    requires
        0 <= i < verses.len(),
        forall|a: int, c: int| 0 <= a < c < verses.len() ==> verses[a].number < verses[c].number,
    ensures
        spec_find_verse(verses, verses[i].number) == Some(verses[i]),
    decreases i,
{
    if i == 0 {
    } else {
        assert(forall|a: int, c: int|
            0 <= a < c < verses.drop_first().len() ==> verses.drop_first()[a].number
                < verses.drop_first()[c].number);
        lemma_find_verse_hits(verses.drop_first(), i - 1);
        assert(verses.drop_first()[i - 1] == verses[i]);
    }
}

/// Search is sound, complete in order, and resolvable: on a well-formed,
/// sorted corpus, every reference search returns resolves through the
/// exact lookups to a verse whose text contains the query, and the
/// references come back strictly ordered by canonical book order, then
/// chapter number, then verse number.
pub proof fn lemma_search_resolves_and_ordered(b: BibleView, q: Seq<char>)
    requires
        wf_bible(b),
        sorted_bible(b),
    ensures
        forall|m: int|
            0 <= m < spec_search(b, q).len() ==> {
                let r = #[trigger] spec_search(b, q)[m];
                match spec_get_verse(b, r) {
                    Some(v) => text_contains(v.text, q),
                    None => false,
                }
            },
        forall|a: int, c: int|
            0 <= a < c < spec_search(b, q).len() ==> ref_before(
                spec_search(b, q)[a],
                spec_search(b, q)[c],
            ),
{
    lemma_refs_of_books_props(b.books, q);
    let rall = spec_search(b, q);
    assert forall|m: int| 0 <= m < rall.len() implies {
        let r = #[trigger] rall[m];
        match spec_get_verse(b, r) {
            Some(v) => text_contains(v.text, q),
            None => false,
        }
    } by {
        let r = rall[m];
        let bi = choose|bi: int|
            0 <= bi < b.books.len() && (#[trigger] b.books[bi]).name == r.book_name && exists|
                c: int,
            |
                0 <= c < b.books[bi].chapters.len() && (#[trigger] b.books[bi].chapters[c]).number
                    == r.chapter_number && exists|p: int|
                    0 <= p < b.books[bi].chapters[c].verses.len() && (#[trigger] b.books[bi].chapters[c].verses[p]).number == r.verse_number && text_contains(
                        b.books[bi].chapters[c].verses[p].text,
                        q,
                    );
        let book = b.books[bi];
        let ci = choose|c: int|
            0 <= c < book.chapters.len() && (#[trigger] book.chapters[c]).number
                == r.chapter_number && exists|p: int|
                0 <= p < book.chapters[c].verses.len() && (#[trigger] book.chapters[c].verses[p]).number == r.verse_number && text_contains(
                    book.chapters[c].verses[p].text,
                    q,
                );
        let chapter = book.chapters[ci];
        let p = choose|p: int|
            0 <= p < chapter.verses.len() && (#[trigger] chapter.verses[p]).number
                == r.verse_number && text_contains(chapter.verses[p].text, q);
        lemma_find_book_hits(b.books, bi);
        assert(sorted_book(book));
        lemma_find_chapter_hits(book.chapters, ci);
        assert(sorted_chapter(chapter));
        lemma_find_verse_hits(chapter.verses, p);
        assert(spec_get_verse(b, r) == Some(chapter.verses[p]));
    }
}

} // verus!

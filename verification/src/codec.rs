use vstd::prelude::*;
use vstd::bytes::{
    lemma_auto_spec_u32_to_from_le_bytes, spec_u32_to_le_bytes, u32_from_le_bytes, u32_to_le_bytes,
};
use vstd::slice::{slice_index_get, slice_subrange, slice_to_vec};
use vstd::utf8::{encode_utf8, encode_utf8_decode_utf8, encode_utf8_valid_utf8, valid_utf8};
use crate::model::{Bible, BibleView, Book, BookView, Chapter, ChapterView, Edition, Verse,
    VerseView};
use crate::registry::BookName;

verus! {

/// The first byte of every snapshot, so a layout change can be told apart
/// from corruption.
pub const FORMAT_VERSION: u8 = 1;

/// How a snapshot can be unreadable: cut short, carrying an enumeration tag
/// out of range, carrying text that is not valid UTF-8, or followed by bytes
/// beyond the encoded corpus.
#[derive(Debug, Clone, Copy, PartialEq, Eq, Structural)]
pub enum DecodeError {
    Truncated,
    BadTag,
    BadText,
    TrailingBytes,
}

/// The byte tag of an edition.
pub open spec fn spec_edition_tag(e: Edition) -> u8 {
    match e {
        Edition::EnglishKingJames => 0,
        Edition::EnglishASV => 1,
    }
}

/// The concatenated encodings of a sequence's elements, in order.
pub open spec fn encode_seq<T>(s: Seq<T>, f: spec_fn(T) -> Seq<u8>) -> Seq<u8>
    decreases s.len(),
{
    if s.len() == 0 {
        Seq::empty()
    } else {
        f(s[0]) + encode_seq(s.drop_first(), f)
    }
}

pub proof fn lemma_encode_seq_snoc<T>(s: Seq<T>, f: spec_fn(T) -> Seq<u8>)
    requires
        s.len() > 0,
    ensures
        encode_seq(s, f) == encode_seq(s.drop_last(), f) + f(s.last()),
    decreases s.len(),
{
    if s.len() == 1 {
        assert(s.drop_last() =~= Seq::empty());
        assert(s.drop_first() =~= Seq::empty());
        assert(encode_seq(s, f) =~= encode_seq(s.drop_last(), f) + f(s.last()));
    } else {
        lemma_encode_seq_snoc(s.drop_first(), f);
        assert(s.drop_first().drop_last() =~= s.drop_last().drop_first());
        assert(s.drop_first().last() == s.last());
        assert(s.drop_last()[0] == s[0]);
        assert(encode_seq(s, f) =~= encode_seq(s.drop_last(), f) + f(s.last()));
    }
}

pub proof fn lemma_encode_seq_split<T>(s: Seq<T>, f: spec_fn(T) -> Seq<u8>, k: int)
    requires
        0 <= k <= s.len(),
    ensures
        encode_seq(s, f) == encode_seq(s.take(k), f) + encode_seq(s.skip(k), f),
    decreases k,
{
    if k == 0 {
        assert(s.take(0) =~= Seq::empty());
        assert(s.skip(0) =~= s);
        assert(encode_seq(s, f) =~= encode_seq(s.take(0), f) + encode_seq(s.skip(0), f));
    } else {
        lemma_encode_seq_split(s, f, k - 1);
        lemma_encode_seq_snoc(s.take(k), f);
        assert(s.take(k).drop_last() =~= s.take(k - 1));
        assert(s.take(k).last() == s[k - 1]);
        assert(s.skip(k - 1)[0] == s[k - 1]);
        assert(s.skip(k - 1).drop_first() =~= s.skip(k));
        assert(encode_seq(s.skip(k - 1), f) == f(s[k - 1]) + encode_seq(s.skip(k), f));
        assert(encode_seq(s, f) =~= encode_seq(s.take(k), f) + encode_seq(s.skip(k), f));
    }
}

/// Text on disk: a length prefix, then the UTF-8 bytes.
pub open spec fn spec_encode_text(t: Seq<char>) -> Seq<u8> {
    spec_u32_to_le_bytes(encode_utf8(t).len() as u32) + encode_utf8(t)
}

/// A verse on disk: its number, then its text.
pub open spec fn spec_encode_verse(v: VerseView) -> Seq<u8> {
    spec_u32_to_le_bytes(v.number) + spec_encode_text(v.text)
}

/// The verses of one chapter on disk, in order.
pub open spec fn spec_encode_verses(vs: Seq<VerseView>) -> Seq<u8> {
    encode_seq(vs, |v: VerseView| spec_encode_verse(v))
}

/// A chapter on disk: its number, a verse count, then the verses.
pub open spec fn spec_encode_chapter(c: ChapterView) -> Seq<u8> {
    spec_u32_to_le_bytes(c.number) + spec_u32_to_le_bytes(c.verses.len() as u32)
        + spec_encode_verses(c.verses)
}

/// A book on disk: its ordinal as one byte, a chapter count, then the
/// chapters.
pub open spec fn spec_encode_chapters(cs: Seq<ChapterView>) -> Seq<u8> {
    encode_seq(cs, |c: ChapterView| spec_encode_chapter(c))
}

pub open spec fn spec_encode_book(b: BookView) -> Seq<u8> {
    seq![b.name.spec_ordinal() as u8] + spec_u32_to_le_bytes(b.chapters.len() as u32)
        + spec_encode_chapters(b.chapters)
}

/// A corpus on disk: the format version, the edition tag, a book count, then
/// the books. A direct structural serialization with no compression and no
/// index.
pub open spec fn spec_encode_books(bs: Seq<BookView>) -> Seq<u8> {
    encode_seq(bs, |bk: BookView| spec_encode_book(bk))
}

pub open spec fn spec_encode_bible(b: BibleView) -> Seq<u8> {
    seq![FORMAT_VERSION, spec_edition_tag(b.edition)] + spec_u32_to_le_bytes(
        b.books.len() as u32,
    ) + spec_encode_books(b.books)
}

/// The machine limit on one text: its UTF-8 form must fit the length prefix.
pub open spec fn text_encodable(t: Seq<char>) -> bool {
    encode_utf8(t).len() <= u32::MAX
}

pub open spec fn verses_encodable(vs: Seq<VerseView>) -> bool {
    forall|i: int| 0 <= i < vs.len() ==> text_encodable(#[trigger] vs[i].text)
}

pub open spec fn chapter_encodable(c: ChapterView) -> bool {
    &&& c.verses.len() <= u32::MAX
    &&& verses_encodable(c.verses)
}

pub open spec fn chapters_encodable(cs: Seq<ChapterView>) -> bool {
    forall|i: int| 0 <= i < cs.len() ==> chapter_encodable(#[trigger] cs[i])
}

pub open spec fn book_encodable(b: BookView) -> bool {
    &&& b.chapters.len() <= u32::MAX
    &&& chapters_encodable(b.chapters)
}

pub open spec fn books_encodable(bs: Seq<BookView>) -> bool {
    forall|i: int| 0 <= i < bs.len() ==> book_encodable(#[trigger] bs[i])
}

/// The machine limits the length prefixes force: every count and every text
/// fits in 32 bits. Any realistic corpus satisfies this.
pub open spec fn encodable(b: BibleView) -> bool {
    &&& b.books.len() <= u32::MAX
    &&& books_encodable(b.books)
}

fn write_u32(out: &mut Vec<u8>, v: u32)
    ensures
        final(out)@ == old(out)@ + spec_u32_to_le_bytes(v),
{
    let mut b = u32_to_le_bytes(v);
    out.append(&mut b);
}

fn write_text(out: &mut Vec<u8>, t: &String)
    requires
        text_encodable(t@),
    ensures
        final(out)@ == old(out)@ + spec_encode_text(t@),
{
    let mut bytes = t.as_str().as_bytes_vec();
    let n = bytes.len();
    write_u32(out, n as u32);
    out.append(&mut bytes);
}

fn write_verse(out: &mut Vec<u8>, v: &Verse)
    requires
        text_encodable(v@.text),
    ensures
        final(out)@ == old(out)@ + spec_encode_verse(v@),
{
    write_u32(out, v.number);
    write_text(out, &v.text);
}

fn write_chapter(out: &mut Vec<u8>, c: &Chapter)
    requires
        chapter_encodable(c@),
    ensures
        final(out)@ == old(out)@ + spec_encode_chapter(c@),
{
    write_u32(out, c.number);
    write_u32(out, c.verses.len() as u32);
    let ghost f = |v: VerseView| spec_encode_verse(v);
    let ghost prefix = out@;
    let mut k: usize = 0;
    while k < c.verses.len()
        invariant
            k <= c.verses.len(),
            chapter_encodable(c@),
            c@.verses.len() == c.verses.len(),
            f == (|v: VerseView| spec_encode_verse(v)),
            out@ == prefix + encode_seq(c@.verses.take(k as int), f),
        decreases c.verses.len() - k,
    {
        proof {
            assert(c@.verses[k as int] == c.verses@[k as int]@);
        }
        write_verse(out, &c.verses[k]);
        proof {
            let taken = c@.verses.take(k as int + 1);
            assert(taken.drop_last() =~= c@.verses.take(k as int));
            assert(taken.last() == c@.verses[k as int]);
            lemma_encode_seq_snoc(taken, f);
        }
        k += 1;
    }
    proof {
        assert(c@.verses.take(c@.verses.len() as int) =~= c@.verses);
        assert(out@ =~= old(out)@ + spec_encode_chapter(c@));
    }
}

fn write_book(out: &mut Vec<u8>, b: &Book)
    requires
        book_encodable(b@),
    ensures
        final(out)@ == old(out)@ + spec_encode_book(b@),
{
    out.push(b.name.ordinal() as u8);
    write_u32(out, b.chapters.len() as u32);
    let ghost f = |c: ChapterView| spec_encode_chapter(c);
    let ghost prefix = out@;
    let mut k: usize = 0;
    while k < b.chapters.len()
        invariant
            k <= b.chapters.len(),
            book_encodable(b@),
            b@.chapters.len() == b.chapters.len(),
            f == (|c: ChapterView| spec_encode_chapter(c)),
            out@ == prefix + encode_seq(b@.chapters.take(k as int), f),
        decreases b.chapters.len() - k,
    {
        proof {
            assert(b@.chapters[k as int] == b.chapters@[k as int]@);
        }
        write_chapter(out, &b.chapters[k]);
        proof {
            let taken = b@.chapters.take(k as int + 1);
            assert(taken.drop_last() =~= b@.chapters.take(k as int));
            assert(taken.last() == b@.chapters[k as int]);
            lemma_encode_seq_snoc(taken, f);
        }
        k += 1;
    }
    proof {
        assert(b@.chapters.take(b@.chapters.len() as int) =~= b@.chapters);
        assert(out@ =~= old(out)@ + spec_encode_book(b@));
    }
}

impl Bible {
    /// The deterministic snapshot of this corpus: a direct structural
    /// serialization, read back by [`Bible::decode`].
    pub fn encode(&self) -> (r: Vec<u8>)
        requires
            encodable(self@),
        ensures
            r@ == spec_encode_bible(self@),
    {
        let mut out: Vec<u8> = Vec::new();
        out.push(FORMAT_VERSION);
        let tag: u8 = match self.edition {
            Edition::EnglishKingJames => 0,
            Edition::EnglishASV => 1,
        };
        out.push(tag);
        write_u32(&mut out, self.books.len() as u32);
        let ghost f = |bk: BookView| spec_encode_book(bk);
        let ghost prefix = out@;
        let mut k: usize = 0;
        while k < self.books.len()
            invariant
                k <= self.books.len(),
                encodable(self@),
                self@.books.len() == self.books.len(),
                f == (|bk: BookView| spec_encode_book(bk)),
                out@ == prefix + encode_seq(self@.books.take(k as int), f),
            decreases self.books.len() - k,
        {
            proof {
                assert(self@.books[k as int] == self.books@[k as int]@);
            }
            write_book(&mut out, &self.books[k]);
            proof {
                let taken = self@.books.take(k as int + 1);
                assert(taken.drop_last() =~= self@.books.take(k as int));
                assert(taken.last() == self@.books[k as int]);
                lemma_encode_seq_snoc(taken, f);
            }
            k += 1;
        }
        proof {
            assert(self@.books.take(self@.books.len() as int) =~= self@.books);
            assert(out@ =~= spec_encode_bible(self@));
        }
        out
    }
}


/// Relies on String::from_utf8: it succeeds exactly on valid UTF-8 input,
/// and the returned string's UTF-8 bytes are the input bytes.
#[verifier::external_body]
fn string_from_utf8(v: Vec<u8>) -> (r: Option<String>)
    ensures
        r is Some <==> valid_utf8(v@),
        r matches Some(s) ==> encode_utf8(s@) == v@,
{
    String::from_utf8(v).ok()
}

fn read_u8(bytes: &[u8], pos: usize) -> (r: Result<(u8, usize), DecodeError>)
    ensures
        r matches Ok(x) ==> pos < bytes@.len() && x.1 == pos + 1 && x.0 == bytes@[pos as int],
        pos < bytes@.len() ==> r is Ok,
        r matches Err(e) ==> e == DecodeError::Truncated,
{
    if pos < bytes.len() {
        Ok((*slice_index_get(bytes, pos), pos + 1))
    } else {
        Err(DecodeError::Truncated)
    }
}

fn read_u32(bytes: &[u8], pos: usize) -> (r: Result<(u32, usize), DecodeError>)
    ensures
        r matches Ok(x) ==> pos + 4 <= bytes@.len() && x.1 == pos + 4 && bytes@.subrange(
            pos as int,
            pos + 4,
        ) == spec_u32_to_le_bytes(x.0),
        pos + 4 <= bytes@.len() ==> r is Ok,
        r matches Err(e) ==> e == DecodeError::Truncated,
{
    proof {
        lemma_auto_spec_u32_to_from_le_bytes();
    }
    if bytes.len() < 4 || pos > bytes.len() - 4 {
        return Err(DecodeError::Truncated);
    }
    let s = slice_subrange(bytes, pos, pos + 4);
    let v = u32_from_le_bytes(s);
    Ok((v, pos + 4))
}

fn read_text(bytes: &[u8], pos: usize) -> (r: Result<(String, usize), DecodeError>)
    ensures
        r matches Ok(x) ==> pos + 4 <= x.1 <= bytes@.len() && bytes@.subrange(
            pos as int,
            x.1 as int,
        ) == spec_encode_text(x.0@) && text_encodable(x.0@),
        forall|t: Seq<char>|
            text_encodable(t) && pos + spec_encode_text(t).len() <= bytes@.len()
                && bytes@.subrange(pos as int, pos + spec_encode_text(t).len())
                == spec_encode_text(t) ==> (r matches Ok(x) && x.0@ == t && x.1 == pos
                + spec_encode_text(t).len()),
{
    proof {
        lemma_auto_spec_u32_to_from_le_bytes();
    }
    let (n, p1) = match read_u32(bytes, pos) {
        Ok(x) => x,
        Err(e) => {
            proof {
                assert forall|t: Seq<char>|
                    text_encodable(t) && pos + spec_encode_text(t).len() <= bytes@.len()
                        && bytes@.subrange(pos as int, pos + spec_encode_text(t).len())
                        == spec_encode_text(t) implies false by {
                    assert(spec_encode_text(t).len() >= 4);
                }
            }
            return Err(e);
        },
    };
    let n_usize: usize = n as usize;
    if bytes.len() - p1 < n_usize {
        proof {
            assert forall|t: Seq<char>|
                text_encodable(t) && pos + spec_encode_text(t).len() <= bytes@.len()
                    && bytes@.subrange(pos as int, pos + spec_encode_text(t).len())
                    == spec_encode_text(t) implies false by {
                let m = encode_utf8(t).len();
                assert(bytes@.subrange(pos as int, pos + 4) =~= spec_encode_text(t).subrange(
                    0,
                    4,
                ));
                assert(spec_encode_text(t).subrange(0, 4) =~= spec_u32_to_le_bytes(m as u32));
                assert(n == m as u32);
                assert(pos + 4 + m <= bytes@.len());
            }
        }
        return Err(DecodeError::Truncated);
    }
    let sb = slice_subrange(bytes, p1, p1 + n_usize);
    let v = slice_to_vec(sb);
    match string_from_utf8(v) {
        Some(text) => {
            proof {
                assert(encode_utf8(text@) == bytes@.subrange(p1 as int, p1 + n_usize));
                assert(encode_utf8(text@).len() == n);
                assert(bytes@.subrange(pos as int, (p1 + n_usize) as int) =~= spec_u32_to_le_bytes(
                    n,
                ) + encode_utf8(text@));
                assert(bytes@.subrange(pos as int, (p1 + n_usize) as int) == spec_encode_text(
                    text@,
                ));
                assert forall|t: Seq<char>|
                    text_encodable(t) && pos + spec_encode_text(t).len() <= bytes@.len()
                        && bytes@.subrange(pos as int, pos + spec_encode_text(t).len())
                        == spec_encode_text(t) implies text@ == t && p1 + n_usize == pos
                    + spec_encode_text(t).len() by {
                    let m = encode_utf8(t).len();
                    assert(bytes@.subrange(pos as int, pos + 4) =~= spec_encode_text(t).subrange(
                        0,
                        4,
                    ));
                    assert(spec_encode_text(t).subrange(0, 4) =~= spec_u32_to_le_bytes(m as u32));
                    assert(n == m as u32);
                    assert(encode_utf8(t) =~= spec_encode_text(t).subrange(
                        4,
                        spec_encode_text(t).len() as int,
                    ));
                    assert(bytes@.subrange(p1 as int, p1 + n_usize) =~= encode_utf8(t));
                    encode_utf8_decode_utf8(text@);
                    encode_utf8_decode_utf8(t);
                }
            }
            Ok((text, p1 + n_usize))
        },
        None => {
            proof {
                assert forall|t: Seq<char>|
                    text_encodable(t) && pos + spec_encode_text(t).len() <= bytes@.len()
                        && bytes@.subrange(pos as int, pos + spec_encode_text(t).len())
                        == spec_encode_text(t) implies false by {
                    let m = encode_utf8(t).len();
                    assert(bytes@.subrange(pos as int, pos + 4) =~= spec_encode_text(t).subrange(
                        0,
                        4,
                    ));
                    assert(spec_encode_text(t).subrange(0, 4) =~= spec_u32_to_le_bytes(m as u32));
                    assert(n == m as u32);
                    assert(encode_utf8(t) =~= spec_encode_text(t).subrange(
                        4,
                        spec_encode_text(t).len() as int,
                    ));
                    assert(bytes@.subrange(p1 as int, p1 + n_usize) =~= encode_utf8(t));
                    encode_utf8_valid_utf8(t);
                }
            }
            Err(DecodeError::BadText)
        },
    }
}


/// Do the bytes beginning at `pos` spell out `enc`?
pub open spec fn starts_with_at(bytes: Seq<u8>, pos: int, enc: Seq<u8>) -> bool {
    0 <= pos && pos + enc.len() <= bytes.len() && bytes.subrange(pos, pos + enc.len()) == enc
}

/// The views of a sequence of verses.
pub open spec fn verse_views(vs: Seq<Verse>) -> Seq<VerseView> {
    vs.map_values(|v: Verse| v@)
}

pub proof fn lemma_verses_split(vs: Seq<VerseView>, k: int)
    requires
        0 <= k <= vs.len(),
    ensures
        spec_encode_verses(vs) == spec_encode_verses(vs.take(k)) + spec_encode_verses(vs.skip(k)),
{
    lemma_encode_seq_split(vs, |v: VerseView| spec_encode_verse(v), k);
}

pub proof fn lemma_verses_snoc(vs: Seq<VerseView>)
    requires
        vs.len() > 0,
    ensures
        spec_encode_verses(vs) == spec_encode_verses(vs.drop_last()) + spec_encode_verse(
            vs.last(),
        ),
{
    lemma_encode_seq_snoc(vs, |v: VerseView| spec_encode_verse(v));
}

fn read_verse(bytes: &[u8], pos: usize) -> (r: Result<(Verse, usize), DecodeError>)
    ensures
        r matches Ok(x) ==> pos <= x.1 <= bytes@.len() && bytes@.subrange(pos as int, x.1 as int)
            == spec_encode_verse(x.0@) && text_encodable(x.0@.text),
        forall|vv: VerseView|
            text_encodable(vv.text) && starts_with_at(bytes@, pos as int, spec_encode_verse(vv))
                ==> (r matches Ok(x) && x.0@ == vv && x.1 == pos + spec_encode_verse(vv).len()),
{
    proof {
        lemma_auto_spec_u32_to_from_le_bytes();
    }
    let (number, p1) = match read_u32(bytes, pos) {
        Ok(x) => x,
        Err(e) => {
            proof {
                assert forall|vv: VerseView|
                    text_encodable(vv.text) && starts_with_at(
                        bytes@,
                        pos as int,
                        spec_encode_verse(vv),
                    ) implies false by {
                    assert(spec_encode_verse(vv).len() >= 4);
                }
            }
            return Err(e);
        },
    };
    match read_text(bytes, p1) {
        Ok((text, p2)) => {
            proof {
                assert(bytes@.subrange(pos as int, p2 as int) =~= spec_u32_to_le_bytes(number)
                    + spec_encode_text(text@));
                assert forall|vv: VerseView|
                    text_encodable(vv.text) && starts_with_at(
                        bytes@,
                        pos as int,
                        spec_encode_verse(vv),
                    ) implies (Verse { number, text }@ == vv && p2 == pos + spec_encode_verse(
                    vv,
                ).len()) by {
                    let l = spec_encode_verse(vv).len();
                    assert(bytes@.subrange(pos as int, pos + 4) =~= spec_encode_verse(vv).subrange(
                        0,
                        4,
                    ));
                    assert(spec_encode_verse(vv).subrange(0, 4) =~= spec_u32_to_le_bytes(
                        vv.number,
                    ));
                    assert(number == vv.number);
                    assert(bytes@.subrange(p1 as int, pos + l) =~= spec_encode_verse(vv).subrange(
                        4,
                        l as int,
                    ));
                    assert(spec_encode_verse(vv).subrange(4, l as int) =~= spec_encode_text(
                        vv.text,
                    ));
                    assert(starts_with_at(bytes@, p1 as int, spec_encode_text(vv.text)));
                }
            }
            Ok((Verse { number, text }, p2))
        },
        Err(e) => {
            proof {
                assert forall|vv: VerseView|
                    text_encodable(vv.text) && starts_with_at(
                        bytes@,
                        pos as int,
                        spec_encode_verse(vv),
                    ) implies false by {
                    let l = spec_encode_verse(vv).len();
                    assert(bytes@.subrange(p1 as int, pos + l) =~= spec_encode_verse(vv).subrange(
                        4,
                        l as int,
                    ));
                    assert(spec_encode_verse(vv).subrange(4, l as int) =~= spec_encode_text(
                        vv.text,
                    ));
                    assert(starts_with_at(bytes@, p1 as int, spec_encode_text(vv.text)));
                }
            }
            Err(e)
        },
    }
}

fn read_verses(bytes: &[u8], pos: usize, n: u32) -> (r: Result<(Vec<Verse>, usize), DecodeError>)
    requires
        pos <= bytes@.len(),
    ensures
        r matches Ok(x) ==> pos <= x.1 <= bytes@.len() && x.0@.len() == n && verses_encodable(
            verse_views(x.0@),
        ) && bytes@.subrange(pos as int, x.1 as int) == spec_encode_verses(verse_views(x.0@)),
        forall|vv: Seq<VerseView>|
            vv.len() == n && verses_encodable(vv) && starts_with_at(
                bytes@,
                pos as int,
                spec_encode_verses(vv),
            ) ==> (r matches Ok(x) && verse_views(x.0@) == vv && x.1 == pos + spec_encode_verses(
                vv,
            ).len()),
{
    let mut vs: Vec<Verse> = Vec::new();
    let mut p: usize = pos;
    let mut k: u32 = 0;
    proof {
        assert(verse_views(vs@) =~= Seq::<VerseView>::empty());
        assert(bytes@.subrange(pos as int, pos as int) =~= spec_encode_verses(verse_views(vs@)));
    }
    while k < n
        invariant
            pos <= p <= bytes@.len(),
            k <= n,
            vs@.len() == k,
            verses_encodable(verse_views(vs@)),
            bytes@.subrange(pos as int, p as int) == spec_encode_verses(verse_views(vs@)),
            forall|vv: Seq<VerseView>|
                vv.len() == n && verses_encodable(vv) && starts_with_at(
                    bytes@,
                    pos as int,
                    spec_encode_verses(vv),
                ) ==> (verse_views(vs@) == vv.take(k as int) && p == pos + spec_encode_verses(
                    vv.take(k as int),
                ).len()),
        decreases n - k,
    {
        let step = read_verse(bytes, p);
        proof {
            assert forall|vv: Seq<VerseView>|
                vv.len() == n && verses_encodable(vv) && starts_with_at(
                    bytes@,
                    pos as int,
                    spec_encode_verses(vv),
                ) implies (step matches Ok(x) && x.0@ == vv[k as int] && x.1 == p
                + spec_encode_verse(vv[k as int]).len()) by {
                lemma_verses_split(vv, k as int);
                assert(spec_encode_verses(vv.skip(k as int)) == spec_encode_verse(vv[k as int])
                    + spec_encode_verses(vv.skip(k as int + 1))) by {
                    assert(vv.skip(k as int)[0] == vv[k as int]);
                    assert(vv.skip(k as int).drop_first() =~= vv.skip(k as int + 1));
                }
                let l = spec_encode_verse(vv[k as int]).len();
                let pre = spec_encode_verses(vv.take(k as int));
                let rest = spec_encode_verses(vv.skip(k as int + 1));
                let whole = spec_encode_verses(vv);
                assert(whole == pre + (spec_encode_verse(vv[k as int]) + rest));
                assert(p == pos + pre.len());
                assert(p + l <= pos + whole.len());
                assert(pos + whole.len() <= bytes@.len());
                assert forall|i: int| 0 <= i < l implies bytes@.subrange(p as int, p + l)[i]
                    == spec_encode_verse(vv[k as int])[i] by {
                    assert(bytes@.subrange(pos as int, pos + whole.len())[pre.len() + i]
                        == whole[pre.len() + i]);
                    assert(bytes@.subrange(p as int, p + l)[i] == bytes@[p + i]);
                    assert(bytes@[p + i] == bytes@.subrange(pos as int, pos + whole.len())[
                        pre.len() + i]);
                    assert(whole[pre.len() + i] == spec_encode_verse(vv[k as int])[i]);
                }
                assert(bytes@.subrange(p as int, p + l) =~= spec_encode_verse(vv[k as int]));
                assert(text_encodable(vv[k as int].text));
                assert(starts_with_at(bytes@, p as int, spec_encode_verse(vv[k as int])));
            }
        }
        let (v, p2) = match step {
            Ok(x) => x,
            Err(e) => {
                return Err(e);
            },
        };
        proof {
            let old_views = verse_views(vs@);
            assert(verse_views(vs@.push(v)) =~= old_views.push(v@));
            assert(spec_encode_verses(old_views.push(v@)) == spec_encode_verses(old_views)
                + spec_encode_verse(v@)) by {
                lemma_verses_snoc(old_views.push(v@));
                assert(old_views.push(v@).drop_last() =~= old_views);
            }
            assert(bytes@.subrange(pos as int, p2 as int) =~= bytes@.subrange(pos as int, p as int)
                + bytes@.subrange(p as int, p2 as int));
            assert forall|vv: Seq<VerseView>|
                vv.len() == n && verses_encodable(vv) && starts_with_at(
                    bytes@,
                    pos as int,
                    spec_encode_verses(vv),
                ) implies (verse_views(vs@.push(v)) == vv.take(k as int + 1) && p2 == pos
                + spec_encode_verses(vv.take(k as int + 1)).len()) by {
                assert(v@ == vv[k as int]);
                assert(old_views == vv.take(k as int));
                assert(old_views.push(v@) =~= vv.take(k as int + 1));
                assert(spec_encode_verses(vv.take(k as int + 1)) == spec_encode_verses(
                    vv.take(k as int),
                ) + spec_encode_verse(vv[k as int])) by {
                    lemma_verses_snoc(vv.take(k as int + 1));
                    assert(vv.take(k as int + 1).drop_last() =~= vv.take(k as int));
                    assert(vv.take(k as int + 1).last() == vv[k as int]);
                }
            }
        }
        vs.push(v);
        p = p2;
        k += 1;
    }
    proof {
        assert forall|vv: Seq<VerseView>|
            vv.len() == n && verses_encodable(vv) && starts_with_at(
                bytes@,
                pos as int,
                spec_encode_verses(vv),
            ) implies (verse_views(vs@) == vv && p == pos + spec_encode_verses(vv).len()) by {
            assert(vv.take(n as int) =~= vv);
        }
    }
    Ok((vs, p))
}


pub proof fn lemma_subrange_of_match(bytes: Seq<u8>, pos: int, whole: Seq<u8>, off: int, part: Seq<u8>)
    requires
        starts_with_at(bytes, pos, whole),
        0 <= off,
        off + part.len() <= whole.len(),
        forall|i: int| 0 <= i < part.len() ==> whole[off + i] == part[i],
    ensures
        starts_with_at(bytes, pos + off, part),
{
    assert forall|i: int| 0 <= i < part.len() implies bytes.subrange(
        pos + off,
        pos + off + part.len(),
    )[i] == part[i] by {
        assert(bytes.subrange(pos, pos + whole.len())[off + i] == whole[off + i]);
        assert(bytes.subrange(pos + off, pos + off + part.len())[i] == bytes[pos + off + i]);
        assert(bytes[pos + off + i] == bytes.subrange(pos, pos + whole.len())[off + i]);
    }
    assert(bytes.subrange(pos + off, pos + off + part.len()) =~= part);
}

/// The views of a sequence of chapters.
pub open spec fn chapter_views(cs: Seq<Chapter>) -> Seq<ChapterView> {
    cs.map_values(|c: Chapter| c@)
}

/// The views of a sequence of books.
pub open spec fn book_views(bs: Seq<Book>) -> Seq<BookView> {
    bs.map_values(|b: Book| b@)
}

pub proof fn lemma_chapters_split(cs: Seq<ChapterView>, k: int)
    requires
        0 <= k <= cs.len(),
    ensures
        spec_encode_chapters(cs) == spec_encode_chapters(cs.take(k)) + spec_encode_chapters(
            cs.skip(k),
        ),
{
    lemma_encode_seq_split(cs, |c: ChapterView| spec_encode_chapter(c), k);
}

pub proof fn lemma_chapters_snoc(cs: Seq<ChapterView>)
    requires
        cs.len() > 0,
    ensures
        spec_encode_chapters(cs) == spec_encode_chapters(cs.drop_last()) + spec_encode_chapter(
            cs.last(),
        ),
{
    lemma_encode_seq_snoc(cs, |c: ChapterView| spec_encode_chapter(c));
}

pub proof fn lemma_books_split(bs: Seq<BookView>, k: int)
    requires
        0 <= k <= bs.len(),
    ensures
        spec_encode_books(bs) == spec_encode_books(bs.take(k)) + spec_encode_books(bs.skip(k)),
{
    lemma_encode_seq_split(bs, |b: BookView| spec_encode_book(b), k);
}

pub proof fn lemma_books_snoc(bs: Seq<BookView>)
    requires
        bs.len() > 0,
    ensures
        spec_encode_books(bs) == spec_encode_books(bs.drop_last()) + spec_encode_book(bs.last()),
{
    lemma_encode_seq_snoc(bs, |b: BookView| spec_encode_book(b));
}

fn read_chapter(bytes: &[u8], pos: usize) -> (r: Result<(Chapter, usize), DecodeError>)
    ensures
        r matches Ok(x) ==> pos <= x.1 <= bytes@.len() && bytes@.subrange(pos as int, x.1 as int)
            == spec_encode_chapter(x.0@) && chapter_encodable(x.0@),
        forall|cv: ChapterView|
            chapter_encodable(cv) && starts_with_at(bytes@, pos as int, spec_encode_chapter(cv))
                ==> (r matches Ok(x) && x.0@ == cv && x.1 == pos + spec_encode_chapter(cv).len()),
{
    proof {
        lemma_auto_spec_u32_to_from_le_bytes();
    }
    let (number, p1) = match read_u32(bytes, pos) {
        Ok(x) => x,
        Err(e) => {
            proof {
                assert forall|cv: ChapterView|
                    chapter_encodable(cv) && starts_with_at(
                        bytes@,
                        pos as int,
                        spec_encode_chapter(cv),
                    ) implies false by {
                    assert(spec_encode_chapter(cv).len() >= 8);
                }
            }
            return Err(e);
        },
    };
    let (count, p2) = match read_u32(bytes, p1) {
        Ok(x) => x,
        Err(e) => {
            proof {
                assert forall|cv: ChapterView|
                    chapter_encodable(cv) && starts_with_at(
                        bytes@,
                        pos as int,
                        spec_encode_chapter(cv),
                    ) implies false by {
                    assert(spec_encode_chapter(cv).len() >= 8);
                }
            }
            return Err(e);
        },
    };
    let step = read_verses(bytes, p2, count);
    proof {
        assert forall|cv: ChapterView|
            chapter_encodable(cv) && starts_with_at(
                bytes@,
                pos as int,
                spec_encode_chapter(cv),
            ) implies (step matches Ok(x) && verse_views(x.0@) == cv.verses && x.1 == p2
            + spec_encode_verses(cv.verses).len() && number == cv.number && count
            == cv.verses.len()) by {
            let whole = spec_encode_chapter(cv);
            assert(bytes@.subrange(pos as int, pos + 4) =~= whole.subrange(0, 4));
            assert(whole.subrange(0, 4) =~= spec_u32_to_le_bytes(cv.number));
            assert(number == cv.number);
            assert(bytes@.subrange(p1 as int, p1 + 4) =~= whole.subrange(4, 8));
            assert(whole.subrange(4, 8) =~= spec_u32_to_le_bytes(cv.verses.len() as u32));
            assert(count == cv.verses.len() as u32);
            lemma_subrange_of_match(bytes@, pos as int, whole, 8, spec_encode_verses(cv.verses));
        }
    }
    match step {
        Ok((verses, p3)) => {
            let chapter = Chapter { number, verses };
            proof {
                assert(chapter@.verses =~= verse_views(chapter.verses@));
                assert(bytes@.subrange(pos as int, p3 as int) =~= spec_u32_to_le_bytes(number)
                    + spec_u32_to_le_bytes(count) + spec_encode_verses(verse_views(
                    chapter.verses@,
                )));
            }
            Ok((chapter, p3))
        },
        Err(e) => Err(e),
    }
}

fn read_chapters(bytes: &[u8], pos: usize, n: u32) -> (r: Result<
    (Vec<Chapter>, usize),
    DecodeError,
>)
    requires
        pos <= bytes@.len(),
    ensures
        r matches Ok(x) ==> pos <= x.1 <= bytes@.len() && x.0@.len() == n && chapters_encodable(
            chapter_views(x.0@),
        ) && bytes@.subrange(pos as int, x.1 as int) == spec_encode_chapters(chapter_views(x.0@)),
        forall|cs: Seq<ChapterView>|
            cs.len() == n && chapters_encodable(cs) && starts_with_at(
                bytes@,
                pos as int,
                spec_encode_chapters(cs),
            ) ==> (r matches Ok(x) && chapter_views(x.0@) == cs && x.1 == pos
                + spec_encode_chapters(cs).len()),
{
    let mut out: Vec<Chapter> = Vec::new();
    let mut p: usize = pos;
    let mut k: u32 = 0;
    proof {
        assert(chapter_views(out@) =~= Seq::<ChapterView>::empty());
        assert(bytes@.subrange(pos as int, pos as int) =~= spec_encode_chapters(
            chapter_views(out@),
        ));
    }
    while k < n
        invariant
            pos <= p <= bytes@.len(),
            k <= n,
            out@.len() == k,
            chapters_encodable(chapter_views(out@)),
            bytes@.subrange(pos as int, p as int) == spec_encode_chapters(chapter_views(out@)),
            forall|cs: Seq<ChapterView>|
                cs.len() == n && chapters_encodable(cs) && starts_with_at(
                    bytes@,
                    pos as int,
                    spec_encode_chapters(cs),
                ) ==> (chapter_views(out@) == cs.take(k as int) && p == pos
                    + spec_encode_chapters(cs.take(k as int)).len()),
        decreases n - k,
    {
        let step = read_chapter(bytes, p);
        proof {
            assert forall|cs: Seq<ChapterView>|
                cs.len() == n && chapters_encodable(cs) && starts_with_at(
                    bytes@,
                    pos as int,
                    spec_encode_chapters(cs),
                ) implies (step matches Ok(x) && x.0@ == cs[k as int] && x.1 == p
                + spec_encode_chapter(cs[k as int]).len()) by {
                lemma_chapters_split(cs, k as int);
                assert(spec_encode_chapters(cs.skip(k as int)) == spec_encode_chapter(
                    cs[k as int],
                ) + spec_encode_chapters(cs.skip(k as int + 1))) by {
                    assert(cs.skip(k as int)[0] == cs[k as int]);
                    assert(cs.skip(k as int).drop_first() =~= cs.skip(k as int + 1));
                }
                let whole = spec_encode_chapters(cs);
                let off = spec_encode_chapters(cs.take(k as int)).len();
                lemma_subrange_of_match(
                    bytes@,
                    pos as int,
                    whole,
                    off as int,
                    spec_encode_chapter(cs[k as int]),
                );
                assert(chapter_encodable(cs[k as int]));
            }
        }
        let (c, p2) = match step {
            Ok(x) => x,
            Err(e) => {
                return Err(e);
            },
        };
        proof {
            let old_views = chapter_views(out@);
            assert(chapter_views(out@.push(c)) =~= old_views.push(c@));
            assert(spec_encode_chapters(old_views.push(c@)) == spec_encode_chapters(old_views)
                + spec_encode_chapter(c@)) by {
                lemma_chapters_snoc(old_views.push(c@));
                assert(old_views.push(c@).drop_last() =~= old_views);
            }
            assert(bytes@.subrange(pos as int, p2 as int) =~= bytes@.subrange(pos as int, p as int)
                + bytes@.subrange(p as int, p2 as int));
            assert forall|cs: Seq<ChapterView>|
                cs.len() == n && chapters_encodable(cs) && starts_with_at(
                    bytes@,
                    pos as int,
                    spec_encode_chapters(cs),
                ) implies (chapter_views(out@.push(c)) == cs.take(k as int + 1) && p2 == pos
                + spec_encode_chapters(cs.take(k as int + 1)).len()) by {
                assert(c@ == cs[k as int]);
                assert(old_views == cs.take(k as int));
                assert(old_views.push(c@) =~= cs.take(k as int + 1));
                assert(spec_encode_chapters(cs.take(k as int + 1)) == spec_encode_chapters(
                    cs.take(k as int),
                ) + spec_encode_chapter(cs[k as int])) by {
                    lemma_chapters_snoc(cs.take(k as int + 1));
                    assert(cs.take(k as int + 1).drop_last() =~= cs.take(k as int));
                    assert(cs.take(k as int + 1).last() == cs[k as int]);
                }
            }
        }
        out.push(c);
        p = p2;
        k += 1;
    }
    proof {
        assert forall|cs: Seq<ChapterView>|
            cs.len() == n && chapters_encodable(cs) && starts_with_at(
                bytes@,
                pos as int,
                spec_encode_chapters(cs),
            ) implies (chapter_views(out@) == cs && p == pos + spec_encode_chapters(cs).len()) by {
            assert(cs.take(n as int) =~= cs);
        }
    }
    Ok((out, p))
}


fn read_book(bytes: &[u8], pos: usize) -> (r: Result<(Book, usize), DecodeError>)
    ensures
        r matches Ok(x) ==> pos <= x.1 <= bytes@.len() && bytes@.subrange(pos as int, x.1 as int)
            == spec_encode_book(x.0@) && book_encodable(x.0@),
        forall|bv: BookView|
            book_encodable(bv) && starts_with_at(bytes@, pos as int, spec_encode_book(bv)) ==> (
            r matches Ok(x) && x.0@ == bv && x.1 == pos + spec_encode_book(bv).len()),
{
    proof {
        lemma_auto_spec_u32_to_from_le_bytes();
        crate::registry::lemma_ordinal_injective();
    }
    let (ordinal, p1) = match read_u8(bytes, pos) {
        Ok(x) => x,
        Err(e) => {
            proof {
                assert forall|bv: BookView|
                    book_encodable(bv) && starts_with_at(
                        bytes@,
                        pos as int,
                        spec_encode_book(bv),
                    ) implies false by {
                    assert(spec_encode_book(bv).len() >= 5);
                }
            }
            return Err(e);
        },
    };
    let name = match BookName::from_index(ordinal as u32) {
        Some(name) => name,
        None => {
            proof {
                assert forall|bv: BookView|
                    book_encodable(bv) && starts_with_at(
                        bytes@,
                        pos as int,
                        spec_encode_book(bv),
                    ) implies false by {
                    assert(bytes@[pos as int] == spec_encode_book(bv)[0]);
                    assert(spec_encode_book(bv)[0] == bv.name.spec_ordinal() as u8);
                    assert(1 <= bv.name.spec_ordinal() <= 66);
                    assert(ordinal as u32 == bv.name.spec_ordinal());
                }
            }
            return Err(DecodeError::BadTag);
        },
    };
    let (count, p2) = match read_u32(bytes, p1) {
        Ok(x) => x,
        Err(e) => {
            proof {
                assert forall|bv: BookView|
                    book_encodable(bv) && starts_with_at(
                        bytes@,
                        pos as int,
                        spec_encode_book(bv),
                    ) implies false by {
                    assert(spec_encode_book(bv).len() >= 5);
                    assert(bytes@.subrange(p1 as int, p1 + 4) =~= spec_encode_book(bv).subrange(
                        1,
                        5,
                    ));
                }
            }
            return Err(e);
        },
    };
    let step = read_chapters(bytes, p2, count);
    proof {
        assert forall|bv: BookView|
            book_encodable(bv) && starts_with_at(
                bytes@,
                pos as int,
                spec_encode_book(bv),
            ) implies (step matches Ok(x) && chapter_views(x.0@) == bv.chapters && x.1 == p2
            + spec_encode_chapters(bv.chapters).len() && name == bv.name && count
            == bv.chapters.len()) by {
            let whole = spec_encode_book(bv);
            assert(bytes@[pos as int] == whole[0]);
            assert(whole[0] == bv.name.spec_ordinal() as u8);
            assert(1 <= bv.name.spec_ordinal() <= 66);
            assert(ordinal as u32 == bv.name.spec_ordinal());
            assert(name.spec_ordinal() == bv.name.spec_ordinal());
            assert(name == bv.name);
            assert(bytes@.subrange(p1 as int, p1 + 4) =~= whole.subrange(1, 5));
            assert(whole.subrange(1, 5) =~= spec_u32_to_le_bytes(bv.chapters.len() as u32));
            assert(count == bv.chapters.len() as u32);
            lemma_subrange_of_match(bytes@, pos as int, whole, 5, spec_encode_chapters(
                bv.chapters,
            ));
        }
    }
    match step {
        Ok((chapters, p3)) => {
            let book = Book { name, chapters };
            proof {
                assert(book@.chapters =~= chapter_views(book.chapters@));
                assert(bytes@.subrange(pos as int, p3 as int) =~= seq![
                    book@.name.spec_ordinal() as u8,
                ] + spec_u32_to_le_bytes(count) + spec_encode_chapters(chapter_views(
                    book.chapters@,
                ))) by {
                    assert(bytes@.subrange(pos as int, p1 as int) =~= seq![
                        name.spec_ordinal() as u8,
                    ]);
                    assert(bytes@.subrange(pos as int, p3 as int) =~= bytes@.subrange(
                        pos as int,
                        p1 as int,
                    ) + bytes@.subrange(p1 as int, p2 as int) + bytes@.subrange(
                        p2 as int,
                        p3 as int,
                    ));
                }
            }
            Ok((book, p3))
        },
        Err(e) => Err(e),
    }
}

fn read_books(bytes: &[u8], pos: usize, n: u32) -> (r: Result<(Vec<Book>, usize), DecodeError>)
    requires
        pos <= bytes@.len(),
    ensures
        r matches Ok(x) ==> pos <= x.1 <= bytes@.len() && x.0@.len() == n && books_encodable(
            book_views(x.0@),
        ) && bytes@.subrange(pos as int, x.1 as int) == spec_encode_books(book_views(x.0@)),
        forall|bs: Seq<BookView>|
            bs.len() == n && books_encodable(bs) && starts_with_at(
                bytes@,
                pos as int,
                spec_encode_books(bs),
            ) ==> (r matches Ok(x) && book_views(x.0@) == bs && x.1 == pos + spec_encode_books(
                bs,
            ).len()),
{
    let mut out: Vec<Book> = Vec::new();
    let mut p: usize = pos;
    let mut k: u32 = 0;
    proof {
        assert(book_views(out@) =~= Seq::<BookView>::empty());
        assert(bytes@.subrange(pos as int, pos as int) =~= spec_encode_books(book_views(out@)));
    }
    while k < n
        invariant
            pos <= p <= bytes@.len(),
            k <= n,
            out@.len() == k,
            books_encodable(book_views(out@)),
            bytes@.subrange(pos as int, p as int) == spec_encode_books(book_views(out@)),
            forall|bs: Seq<BookView>|
                bs.len() == n && books_encodable(bs) && starts_with_at(
                    bytes@,
                    pos as int,
                    spec_encode_books(bs),
                ) ==> (book_views(out@) == bs.take(k as int) && p == pos + spec_encode_books(
                    bs.take(k as int),
                ).len()),
        decreases n - k,
    {
        let step = read_book(bytes, p);
        proof {
            assert forall|bs: Seq<BookView>|
                bs.len() == n && books_encodable(bs) && starts_with_at(
                    bytes@,
                    pos as int,
                    spec_encode_books(bs),
                ) implies (step matches Ok(x) && x.0@ == bs[k as int] && x.1 == p
                + spec_encode_book(bs[k as int]).len()) by {
                lemma_books_split(bs, k as int);
                assert(spec_encode_books(bs.skip(k as int)) == spec_encode_book(bs[k as int])
                    + spec_encode_books(bs.skip(k as int + 1))) by {
                    assert(bs.skip(k as int)[0] == bs[k as int]);
                    assert(bs.skip(k as int).drop_first() =~= bs.skip(k as int + 1));
                }
                let whole = spec_encode_books(bs);
                let off = spec_encode_books(bs.take(k as int)).len();
                lemma_subrange_of_match(
                    bytes@,
                    pos as int,
                    whole,
                    off as int,
                    spec_encode_book(bs[k as int]),
                );
                assert(book_encodable(bs[k as int]));
            }
        }
        let (b, p2) = match step {
            Ok(x) => x,
            Err(e) => {
                return Err(e);
            },
        };
        proof {
            let old_views = book_views(out@);
            assert(book_views(out@.push(b)) =~= old_views.push(b@));
            assert(spec_encode_books(old_views.push(b@)) == spec_encode_books(old_views)
                + spec_encode_book(b@)) by {
                lemma_books_snoc(old_views.push(b@));
                assert(old_views.push(b@).drop_last() =~= old_views);
            }
            assert(bytes@.subrange(pos as int, p2 as int) =~= bytes@.subrange(pos as int, p as int)
                + bytes@.subrange(p as int, p2 as int));
            assert forall|bs: Seq<BookView>|
                bs.len() == n && books_encodable(bs) && starts_with_at(
                    bytes@,
                    pos as int,
                    spec_encode_books(bs),
                ) implies (book_views(out@.push(b)) == bs.take(k as int + 1) && p2 == pos
                + spec_encode_books(bs.take(k as int + 1)).len()) by {
                assert(b@ == bs[k as int]);
                assert(old_views == bs.take(k as int));
                assert(old_views.push(b@) =~= bs.take(k as int + 1));
                assert(spec_encode_books(bs.take(k as int + 1)) == spec_encode_books(
                    bs.take(k as int),
                ) + spec_encode_book(bs[k as int])) by {
                    lemma_books_snoc(bs.take(k as int + 1));
                    assert(bs.take(k as int + 1).drop_last() =~= bs.take(k as int));
                    assert(bs.take(k as int + 1).last() == bs[k as int]);
                }
            }
        }
        out.push(b);
        p = p2;
        k += 1;
    }
    proof {
        assert forall|bs: Seq<BookView>|
            bs.len() == n && books_encodable(bs) && starts_with_at(
                bytes@,
                pos as int,
                spec_encode_books(bs),
            ) implies (book_views(out@) == bs && p == pos + spec_encode_books(bs).len()) by {
            assert(bs.take(n as int) =~= bs);
        }
    }
    Ok((out, p))
}

impl Bible {
    /// Whether this corpus fits the snapshot layout's length prefixes.
    fn check_encodable(&self) -> (r: bool)
        ensures
            r == encodable(self@),
    {
        if self.books.len() > u32::MAX as usize {
            return false;
        }
        let mut i: usize = 0;
        while i < self.books.len()
            invariant
                i <= self.books.len(),
                self@.books.len() == self.books.len(),
                forall|k: int| 0 <= k < i ==> book_encodable(#[trigger] self@.books[k]),
            decreases self.books.len() - i,
        {
            let book = &self.books[i];
            proof {
                assert(book@ == self@.books[i as int]);
            }
            if book.chapters.len() > u32::MAX as usize {
                return false;
            }
            let mut j: usize = 0;
            while j < book.chapters.len()
                invariant
                    j <= book.chapters.len(),
                    i < self@.books.len(),
                    book@ == self@.books[i as int],
                    book@.chapters.len() == book.chapters.len(),
                    book@.chapters.len() <= u32::MAX,
                    forall|k: int| 0 <= k < j ==> chapter_encodable(#[trigger] book@.chapters[k]),
                decreases book.chapters.len() - j,
            {
                let chapter = &book.chapters[j];
                proof {
                    assert(chapter@ == book@.chapters[j as int]);
                }
                if chapter.verses.len() > u32::MAX as usize {
                    proof {
                        assert(!chapter_encodable(book@.chapters[j as int]));
                        assert(!book_encodable(self@.books[i as int]));
                    }
                    return false;
                }
                let mut k: usize = 0;
                while k < chapter.verses.len()
                    invariant
                        k <= chapter.verses.len(),
                        i < self@.books.len(),
                        book@ == self@.books[i as int],
                        j < book@.chapters.len(),
                        chapter@ == book@.chapters[j as int],
                        chapter@.verses.len() == chapter.verses.len(),
                        chapter@.verses.len() <= u32::MAX,
                        forall|m: int|
                            0 <= m < k ==> text_encodable(#[trigger] chapter@.verses[m].text),
                    decreases chapter.verses.len() - k,
                {
                    proof {
                        assert(chapter@.verses[k as int] == chapter.verses@[k as int]@);
                    }
                    if chapter.verses[k].text.as_str().as_bytes().len() > u32::MAX as usize {
                        proof {
                            assert(!text_encodable(chapter@.verses[k as int].text));
                            assert(!chapter_encodable(book@.chapters[j as int]));
                            assert(!book_encodable(self@.books[i as int]));
                        }
                        return false;
                    }
                    k += 1;
                }
                j += 1;
            }
            i += 1;
        }
        true
    }

    /// The snapshot of this corpus when it fits the layout's length
    /// prefixes, and nothing when it does not: the checked companion of
    /// [`Bible::encode`].
    pub fn try_encode(&self) -> (r: Option<Vec<u8>>)
        ensures
            encodable(self@) ==> (r matches Some(v) && v@ == spec_encode_bible(self@)),
            !encodable(self@) ==> r is None,
    {
        if self.check_encodable() {
            Some(self.encode())
        } else {
            None
        }
    }
}

impl Bible {
    /// Reads a snapshot back into a corpus. The contract pins the result
    /// down completely: decoding succeeds exactly on the byte strings that
    /// [`Bible::encode`] produces, and then yields the encoded corpus, so
    /// `decode` inverts `encode` on every encodable corpus. On anything
    /// else - truncated input, a tag out of range, text that is not UTF-8,
    /// or trailing bytes - it returns the matching [`DecodeError`] instead
    /// of panicking.
    #[verifier::rlimit(60)]
    pub fn decode(bytes: &[u8]) -> (r: Result<Bible, DecodeError>)
        ensures
            r matches Ok(b) ==> encodable(b@) && bytes@ == spec_encode_bible(b@),
            forall|c: BibleView|
                encodable(c) && bytes@ == spec_encode_bible(c) ==> (r matches Ok(b) && b@ == c),
    {
        proof {
            lemma_auto_spec_u32_to_from_le_bytes();
        }
        let (version, p0) = match read_u8(bytes, 0) {
            Ok(x) => x,
            Err(e) => {
                proof {
                    assert forall|c: BibleView|
                        encodable(c) && bytes@ == spec_encode_bible(c) implies false by {
                        assert(spec_encode_bible(c).len() >= 6);
                    }
                }
                return Err(e);
            },
        };
        if version != FORMAT_VERSION {
            proof {
                assert forall|c: BibleView|
                    encodable(c) && bytes@ == spec_encode_bible(c) implies false by {
                    assert(bytes@[0] == FORMAT_VERSION);
                }
            }
            return Err(DecodeError::BadTag);
        }
        let (tag, p1) = match read_u8(bytes, p0) {
            Ok(x) => x,
            Err(e) => {
                proof {
                    assert forall|c: BibleView|
                        encodable(c) && bytes@ == spec_encode_bible(c) implies false by {
                        assert(spec_encode_bible(c).len() >= 6);
                    }
                }
                return Err(e);
            },
        };
        let edition = match tag {
            0 => Edition::EnglishKingJames,
            1 => Edition::EnglishASV,
            _ => {
                proof {
                    assert forall|c: BibleView|
                        encodable(c) && bytes@ == spec_encode_bible(c) implies false by {
                        assert(bytes@[1] == spec_edition_tag(c.edition));
                    }
                }
                return Err(DecodeError::BadTag);
            },
        };
        let (count, p2) = match read_u32(bytes, p1) {
            Ok(x) => x,
            Err(e) => {
                proof {
                    assert forall|c: BibleView|
                        encodable(c) && bytes@ == spec_encode_bible(c) implies false by {
                        assert(spec_encode_bible(c).len() >= 6);
                        assert(bytes@.subrange(2, 6) =~= spec_encode_bible(c).subrange(2, 6));
                        assert(spec_encode_bible(c).subrange(2, 6) =~= spec_u32_to_le_bytes(
                            c.books.len() as u32,
                        ));
                    }
                }
                return Err(e);
            },
        };
        let step = read_books(bytes, p2, count);
        proof {
            assert forall|c: BibleView|
                encodable(c) && bytes@ == spec_encode_bible(c) implies (step matches Ok(x)
                && book_views(x.0@) == c.books && x.1 == p2 + spec_encode_books(c.books).len()
                && edition == c.edition && count == c.books.len()) by {
                let whole = spec_encode_bible(c);
                assert(starts_with_at(bytes@, 0, whole)) by {
                    assert(bytes@.subrange(0, whole.len() as int) =~= whole);
                }
                assert(bytes@[1] == spec_edition_tag(c.edition));
                assert(edition == c.edition);
                assert(bytes@.subrange(2, 6) =~= whole.subrange(2, 6));
                assert(whole.subrange(2, 6) =~= spec_u32_to_le_bytes(c.books.len() as u32));
                assert(count == c.books.len() as u32);
                lemma_subrange_of_match(bytes@, 0, whole, 6, spec_encode_books(c.books));
            }
        }
        let (books, p3) = match step {
            Ok(x) => x,
            Err(e) => {
                return Err(e);
            },
        };
        if p3 != bytes.len() {
            proof {
                assert forall|c: BibleView|
                    encodable(c) && bytes@ == spec_encode_bible(c) implies false by {
                    assert(spec_encode_bible(c).len() == 6 + spec_encode_books(c.books).len());
                }
            }
            return Err(DecodeError::TrailingBytes);
        }
        let bible = Bible { books, edition };
        proof {
            assert(bible@.books =~= book_views(bible.books@));
            assert(bytes@ =~= seq![FORMAT_VERSION, spec_edition_tag(bible@.edition)]
                + spec_u32_to_le_bytes(count) + spec_encode_books(book_views(bible.books@)));
            assert forall|c: BibleView|
                encodable(c) && bytes@ == spec_encode_bible(c) implies bible@ == c by {
                assert(bible@.books == c.books);
                assert(bible@.edition == c.edition);
            }
        }
        Ok(bible)
    }
}

} // verus!

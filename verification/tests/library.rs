use bible::{
    Bible, Book, BookName, Chapter, ChapterReference, DecodeError, Edition, LoadError,
    MalformedSource, Verse, VerseReference,
};

fn verse(number: u32, text: &str) -> Verse {
    Verse { number, text: String::from(text) }
}

fn small_fixture() -> Bible {
    Bible {
        books: vec![
            Book {
                name: BookName::Genesis,
                chapters: vec![
                    Chapter {
                        number: 1,
                        verses: vec![verse(1, "God is love"), verse(2, "Jesus wept")],
                    },
                    Chapter { number: 2, verses: vec![verse(1, "Jesus lives")] },
                ],
            },
        ],
        edition: Edition::EnglishKingJames,
    }
}

fn acts_fixture() -> Bible {
    Bible {
        books: vec![
            Book {
                name: BookName::John,
                chapters: vec![
                    Chapter { number: 11, verses: vec![verse(35, "Jesus wept.")] },
                ],
            },
            Book {
                name: BookName::Acts,
                chapters: vec![
                    Chapter {
                        number: 2,
                        verses: vec![
                            verse(1, "And when the day of Pentecost was fully come"),
                            verse(2, "And suddenly there came a sound from heaven"),
                            verse(3, "the name of Jesus Christ"),
                        ],
                    },
                ],
            },
        ],
        edition: Edition::EnglishKingJames,
    }
}

fn same_bible(a: &Bible, b: &Bible) -> bool {
    if a.edition != b.edition || a.books.len() != b.books.len() {
        return false;
    }
    for (x, y) in a.books.iter().zip(b.books.iter()) {
        if x.name != y.name || x.chapters.len() != y.chapters.len() {
            return false;
        }
        for (c, d) in x.chapters.iter().zip(y.chapters.iter()) {
            if c.number != d.number || c.verses.len() != d.verses.len() {
                return false;
            }
            for (v, w) in c.verses.iter().zip(d.verses.iter()) {
                if v.number != w.number || v.text != w.text {
                    return false;
                }
            }
        }
    }
    true
}

#[test]
fn registry_round_trips_all_66_ordinals() {
    for n in 1u32..=66 {
        let name = BookName::from_index(n).expect("ordinal in range must map");
        assert_eq!(name.ordinal(), n);
    }
    assert!(BookName::from_index(0).is_none());
    assert!(BookName::from_index(67).is_none());
    assert!(BookName::from_index(9999).is_none());
}

#[test]
fn registry_display_names_distinct_and_nonempty() {
    let mut names: Vec<&str> = Vec::new();
    for n in 1u32..=66 {
        let name = BookName::from_index(n).unwrap().display_name();
        assert!(!name.is_empty());
        assert!(!names.contains(&name));
        names.push(name);
    }
    assert_eq!(BookName::FirstSamuel.display_name(), "I Samuel");
    assert_eq!(BookName::Genesis.display_name(), "Genesis");
    assert_eq!(BookName::Revelation.display_name(), "Revelation");
}

#[test]
fn try_encode_agrees_with_encode() {
    let fixture = acts_fixture();
    assert_eq!(fixture.try_encode().unwrap(), fixture.encode());
}

#[test]
fn codec_round_trip_deep_equality() {
    let original = acts_fixture();
    let bytes = original.encode();
    let decoded = Bible::decode(&bytes).expect("an encoded corpus must decode");
    assert!(same_bible(&original, &decoded));
}

#[test]
fn codec_round_trip_empty_corpus_and_unicode_text() {
    let empty = Bible { books: Vec::new(), edition: Edition::EnglishASV };
    let decoded = Bible::decode(&empty.encode()).unwrap();
    assert!(same_bible(&empty, &decoded));

    let unicode = Bible {
        books: vec![
            Book {
                name: BookName::Psalms,
                chapters: vec![
                    Chapter { number: 23, verses: vec![verse(1, "the LORD \u{2014} my shepherd \u{00e9}\u{4e66}")] },
                ],
            },
        ],
        edition: Edition::EnglishKingJames,
    };
    let decoded = Bible::decode(&unicode.encode()).unwrap();
    assert!(same_bible(&unicode, &decoded));
    assert_eq!(
        decoded.books[0].chapters[0].verses[0].text,
        "the LORD \u{2014} my shepherd \u{00e9}\u{4e66}"
    );
}

#[test]
fn decode_rejects_truncated_and_garbage_bytes() {
    let bytes = acts_fixture().encode();
    for cut in 0..bytes.len() {
        assert!(Bible::decode(&bytes[..cut]).is_err());
    }
    assert_eq!(Bible::decode(&[]).err(), Some(DecodeError::Truncated));
    assert!(Bible::decode(&[0xff, 0xfe, 0xfd, 0xfc, 0xfb]).is_err());
    let garbage: Vec<u8> = (0..256u32).map(|i| (i * 37 % 251) as u8).collect();
    assert!(Bible::decode(&garbage).is_err());
}

#[test]
fn decode_reports_each_error_kind() {
    let good = acts_fixture().encode();

    let mut wrong_version = good.clone();
    wrong_version[0] = 9;
    assert_eq!(Bible::decode(&wrong_version).err(), Some(DecodeError::BadTag));

    let mut wrong_edition = good.clone();
    wrong_edition[1] = 7;
    assert_eq!(Bible::decode(&wrong_edition).err(), Some(DecodeError::BadTag));

    let mut wrong_ordinal = good.clone();
    wrong_ordinal[6] = 67;
    assert_eq!(Bible::decode(&wrong_ordinal).err(), Some(DecodeError::BadTag));

    let mut trailing = good.clone();
    trailing.push(0);
    assert_eq!(Bible::decode(&trailing).err(), Some(DecodeError::TrailingBytes));

    assert_eq!(Bible::decode(&good[..good.len() - 1]).err(), Some(DecodeError::Truncated));

    let one_verse = Bible {
        books: vec![
            Book {
                name: BookName::Jude,
                chapters: vec![Chapter { number: 1, verses: vec![verse(1, "ab")] }],
            },
        ],
        edition: Edition::EnglishKingJames,
    };
    let mut bad_text = one_verse.encode();
    let n = bad_text.len();
    bad_text[n - 1] = 0xff;
    bad_text[n - 2] = 0xff;
    assert_eq!(Bible::decode(&bad_text).err(), Some(DecodeError::BadText));
}

#[test]
fn loader_checks_the_edition() {
    let bytes = acts_fixture().encode();
    let loaded = Bible::new(Edition::EnglishKingJames, &bytes).unwrap();
    assert!(same_bible(&loaded, &acts_fixture()));
    assert_eq!(Bible::new(Edition::EnglishASV, &bytes).err(), Some(LoadError::UnsupportedEdition));
    assert_eq!(Bible::new(Edition::EnglishKingJames, &bytes[..3]).err(), Some(LoadError::Decode(DecodeError::Truncated)));
}

#[test]
fn lookup_returns_the_exact_fixture_text() {
    let bible = acts_fixture();
    let chapter = bible
        .get_chapter(&ChapterReference::new(BookName::Acts, 2))
        .expect("fixture has Acts 2");
    assert_eq!(chapter.verses.len(), 3);
    let v = bible
        .get_verse(&VerseReference::new(BookName::Acts, 2, 1))
        .expect("fixture has Acts 2:1");
    assert_eq!(v.text, "And when the day of Pentecost was fully come");
}

#[test]
fn lookup_misses_return_none() {
    let bible = acts_fixture();
    assert!(bible.get_chapter(&ChapterReference::new(BookName::Acts, 9999)).is_none());
    assert!(bible.get_verse(&VerseReference::new(BookName::Acts, 2, 9999)).is_none());
    assert!(bible.get_chapter(&ChapterReference::new(BookName::Obadiah, 1)).is_none());
}

#[test]
fn search_returns_exactly_the_matches_in_order() {
    let bible = small_fixture();
    let results = bible.search("Jesus");
    assert_eq!(
        results.references,
        vec![
            VerseReference::new(BookName::Genesis, 1, 2),
            VerseReference::new(BookName::Genesis, 2, 1),
        ]
    );
    assert!(bible.search("xyzzy").references.is_empty());
}

#[test]
fn search_is_ordered_and_resolvable_on_a_larger_corpus() {
    let bible = acts_fixture();
    let results = bible.search("Jesus");
    assert_eq!(
        results.references,
        vec![
            VerseReference::new(BookName::John, 11, 35),
            VerseReference::new(BookName::Acts, 2, 3),
        ]
    );
    for r in &results.references {
        let v = bible.get_verse(r).expect("every result must resolve");
        assert!(v.text.contains("Jesus"));
    }
}

#[test]
fn search_empty_query_matches_every_verse() {
    let bible = small_fixture();
    assert_eq!(bible.search("").references.len(), 3);
}

#[test]
fn import_builds_the_corpus_from_markup() {
    let source = "<?xml version=\"1.0\" encoding=\"utf-8\"?>\n<bible>\n  <testament name=\"old\">\n    <book number=\"1\">\n      <chapter number=\"1\">\n        <verse number=\"1\">In the beginning God created the heaven &amp; the earth.</verse>\n        <verse number=\"2\">And the earth was without form</verse>\n      </chapter>\n    </book>\n  </testament>\n  <testament name=\"new\">\n    <book number=\"44\">\n      <chapter number=\"2\">\n        <verse number=\"1\">And when the day of Pentecost was fully come</verse>\n      </chapter>\n    </book>\n  </testament>\n</bible>\n";
    let bible = Bible::import(source, Edition::EnglishKingJames).expect("well-formed source");
    assert_eq!(bible.books.len(), 2);
    assert_eq!(bible.books[0].name, BookName::Genesis);
    assert_eq!(bible.books[1].name, BookName::Acts);
    assert_eq!(
        bible.books[0].chapters[0].verses[0].text,
        "In the beginning God created the heaven & the earth."
    );
    assert_eq!(bible.books[1].chapters[0].number, 2);
    let v = bible.get_verse(&VerseReference::new(BookName::Acts, 2, 1)).unwrap();
    assert_eq!(v.text, "And when the day of Pentecost was fully come");
}

#[test]
fn import_decodes_every_predefined_entity() {
    let source = "<b><t><book number=\"65\"><chapter number=\"1\"><verse number=\"1\">&lt;&gt;&amp;&quot;&apos;</verse></chapter></book></t></b>";
    let bible = Bible::import(source, Edition::EnglishASV).unwrap();
    assert_eq!(bible.books[0].chapters[0].verses[0].text, "<>&\"'");
    assert_eq!(bible.edition, Edition::EnglishASV);
}

#[test]
fn import_rejects_out_of_range_book_index() {
    let source = "<bible><testament><book number=\"67\"><chapter number=\"1\"><verse number=\"1\">x</verse></chapter></book></testament></bible>";
    assert_eq!(Bible::import(source, Edition::EnglishKingJames).err(), Some(MalformedSource));
    let zero = "<bible><testament><book number=\"0\"><chapter number=\"1\"><verse number=\"1\">x</verse></chapter></book></testament></bible>";
    assert_eq!(Bible::import(zero, Edition::EnglishKingJames).err(), Some(MalformedSource));
}

#[test]
fn import_rejects_missing_or_non_numeric_attributes() {
    let missing = "<bible><testament><book><chapter number=\"1\"><verse number=\"1\">x</verse></chapter></book></testament></bible>";
    assert_eq!(Bible::import(missing, Edition::EnglishKingJames).err(), Some(MalformedSource));
    let word = "<bible><testament><book number=\"one\"><chapter number=\"1\"><verse number=\"1\">x</verse></chapter></book></testament></bible>";
    assert_eq!(Bible::import(word, Edition::EnglishKingJames).err(), Some(MalformedSource));
    let huge = "<bible><testament><book number=\"99999999999\"><chapter number=\"1\"><verse number=\"1\">x</verse></chapter></book></testament></bible>";
    assert_eq!(Bible::import(huge, Edition::EnglishKingJames).err(), Some(MalformedSource));
}

#[test]
fn import_rejects_malformed_markup() {
    assert_eq!(Bible::import("", Edition::EnglishKingJames).err(), Some(MalformedSource));
    assert_eq!(Bible::import("not markup", Edition::EnglishKingJames).err(), Some(MalformedSource));
    let unclosed = "<bible><testament><book number=\"1\">";
    assert_eq!(Bible::import(unclosed, Edition::EnglishKingJames).err(), Some(MalformedSource));
    let mismatched = "<bible><testament></other></bible>";
    assert_eq!(Bible::import(mismatched, Edition::EnglishKingJames).err(), Some(MalformedSource));
    let trailing = "<bible></bible> junk";
    assert_eq!(Bible::import(trailing, Edition::EnglishKingJames).err(), Some(MalformedSource));
    let bad_escape = "<b><t><book number=\"1\"><chapter number=\"1\"><verse number=\"1\">a &bogus; b</verse></chapter></book></t></b>";
    assert_eq!(Bible::import(bad_escape, Edition::EnglishKingJames).err(), Some(MalformedSource));
}

#[test]
fn import_then_encode_then_load_round_trips() {
    let source = "<bible><testament><book number=\"19\"><chapter number=\"23\"><verse number=\"1\">The LORD is my shepherd; I shall not want.</verse></chapter></book></testament></bible>";
    let imported = Bible::import(source, Edition::EnglishASV).unwrap();
    let bytes = imported.encode();
    let loaded = Bible::new(Edition::EnglishASV, &bytes).unwrap();
    assert!(same_bible(&imported, &loaded));
    assert_eq!(
        loaded.get_verse(&VerseReference::new(BookName::Psalms, 23, 1)).unwrap().text,
        "The LORD is my shepherd; I shall not want."
    );
}

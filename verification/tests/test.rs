use bible::{Bible, Book, BookName, Chapter, ChapterReference, Edition, Verse, VerseReference};

fn fixture() -> Bible {
    Bible {
        books: vec![
            Book {
                name: BookName::Acts,
                chapters: vec![
                    Chapter {
                        number: 1,
                        verses: vec![Verse { number: 1, text: String::from("The former treatise have I made") }],
                    },
                    Chapter {
                        number: 2,
                        verses: vec![
                            Verse { number: 1, text: String::from("And when the day of Pentecost was fully come") },
                            Verse { number: 2, text: String::from("Jesus of Nazareth, a man approved of God") },
                        ],
                    },
                ],
            },
        ],
        edition: Edition::EnglishKingJames,
    }
}

#[test]
fn get_chapter() {
    let bytes = fixture().encode();
    let bible = Bible::new(Edition::EnglishKingJames, &bytes).unwrap();
    assert!(bible
        .get_chapter(&ChapterReference::new(BookName::Acts, 2))
        .is_some());
}

#[test]
fn get_verse() {
    let bytes = fixture().encode();
    let bible = Bible::new(Edition::EnglishKingJames, &bytes).unwrap();
    assert!(bible
        .get_verse(&VerseReference::new(BookName::Acts, 2, 1))
        .is_some());
}

#[test]
fn search() {
    let bytes = fixture().encode();
    let bible = Bible::new(Edition::EnglishKingJames, &bytes).unwrap();
    let results = bible.search("Jesus");

    assert!(results.references.len() > 0);
}

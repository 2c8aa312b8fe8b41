use vstd::prelude::*;

verus! {

/// The 66 books of the canon in their fixed order: 39 Old Testament books
/// followed by 27 New Testament books. Each book has a stable ordinal,
/// 1 through 66, which is its identity on disk and in search results.
#[derive(Debug, Clone, Copy, PartialEq, Eq, Structural, Hash)]
pub enum BookName {
    Genesis,
    Exodus,
    Leviticus,
    Numbers,
    Deuteronomy,
    Joshua,
    Judges,
    Ruth,
    FirstSamuel,
    SecondSamuel,
    FirstKings,
    SecondKings,
    FirstChronicles,
    SecondChronicles,
    Ezra,
    Nehemiah,
    Esther,
    Job,
    Psalms,
    Proverbs,
    Ecclesiastes,
    SongOfSolomon,
    Isaiah,
    Jeremiah,
    Lamentations,
    Ezekiel,
    Daniel,
    Hosea,
    Joel,
    Amos,
    Obadiah,
    Jonah,
    Micah,
    Nahum,
    Habakkuk,
    Zephaniah,
    Haggai,
    Zechariah,
    Malachi,
    Matthew,
    Mark,
    Luke,
    John,
    Acts,
    Romans,
    FirstCorinthians,
    SecondCorinthians,
    Galatians,
    Ephesians,
    Philippians,
    Colossians,
    FirstThessalonians,
    SecondThessalonians,
    FirstTimothy,
    SecondTimothy,
    Titus,
    Philemon,
    Hebrews,
    James,
    FirstPeter,
    SecondPeter,
    FirstJohn,
    SecondJohn,
    ThirdJohn,
    Jude,
    Revelation,
}

impl BookName {
    /// The canonical ordinal of this book, 1 through 66.
    pub open spec fn spec_ordinal(self) -> u32 {
        match self {
            BookName::Genesis => 1,
            BookName::Exodus => 2,
            BookName::Leviticus => 3,
            BookName::Numbers => 4,
            BookName::Deuteronomy => 5,
            BookName::Joshua => 6,
            BookName::Judges => 7,
            BookName::Ruth => 8,
            BookName::FirstSamuel => 9,
            BookName::SecondSamuel => 10,
            BookName::FirstKings => 11,
            BookName::SecondKings => 12,
            BookName::FirstChronicles => 13,
            BookName::SecondChronicles => 14,
            BookName::Ezra => 15,
            BookName::Nehemiah => 16,
            BookName::Esther => 17,
            BookName::Job => 18,
            BookName::Psalms => 19,
            BookName::Proverbs => 20,
            BookName::Ecclesiastes => 21,
            BookName::SongOfSolomon => 22,
            BookName::Isaiah => 23,
            BookName::Jeremiah => 24,
            BookName::Lamentations => 25,
            BookName::Ezekiel => 26,
            BookName::Daniel => 27,
            BookName::Hosea => 28,
            BookName::Joel => 29,
            BookName::Amos => 30,
            BookName::Obadiah => 31,
            BookName::Jonah => 32,
            BookName::Micah => 33,
            BookName::Nahum => 34,
            BookName::Habakkuk => 35,
            BookName::Zephaniah => 36,
            BookName::Haggai => 37,
            BookName::Zechariah => 38,
            BookName::Malachi => 39,
            BookName::Matthew => 40,
            BookName::Mark => 41,
            BookName::Luke => 42,
            BookName::John => 43,
            BookName::Acts => 44,
            BookName::Romans => 45,
            BookName::FirstCorinthians => 46,
            BookName::SecondCorinthians => 47,
            BookName::Galatians => 48,
            BookName::Ephesians => 49,
            BookName::Philippians => 50,
            BookName::Colossians => 51,
            BookName::FirstThessalonians => 52,
            BookName::SecondThessalonians => 53,
            BookName::FirstTimothy => 54,
            BookName::SecondTimothy => 55,
            BookName::Titus => 56,
            BookName::Philemon => 57,
            BookName::Hebrews => 58,
            BookName::James => 59,
            BookName::FirstPeter => 60,
            BookName::SecondPeter => 61,
            BookName::FirstJohn => 62,
            BookName::SecondJohn => 63,
            BookName::ThirdJohn => 64,
            BookName::Jude => 65,
            BookName::Revelation => 66,
        }
    }

    /// The canonical ordinal of this book, 1 through 66.
    pub fn ordinal(self) -> (n: u32)
        ensures
            n == self.spec_ordinal(),
    {
        match self {
            BookName::Genesis => 1,
            BookName::Exodus => 2,
            BookName::Leviticus => 3,
            BookName::Numbers => 4,
            BookName::Deuteronomy => 5,
            BookName::Joshua => 6,
            BookName::Judges => 7,
            BookName::Ruth => 8,
            BookName::FirstSamuel => 9,
            BookName::SecondSamuel => 10,
            BookName::FirstKings => 11,
            BookName::SecondKings => 12,
            BookName::FirstChronicles => 13,
            BookName::SecondChronicles => 14,
            BookName::Ezra => 15,
            BookName::Nehemiah => 16,
            BookName::Esther => 17,
            BookName::Job => 18,
            BookName::Psalms => 19,
            BookName::Proverbs => 20,
            BookName::Ecclesiastes => 21,
            BookName::SongOfSolomon => 22,
            BookName::Isaiah => 23,
            BookName::Jeremiah => 24,
            BookName::Lamentations => 25,
            BookName::Ezekiel => 26,
            BookName::Daniel => 27,
            BookName::Hosea => 28,
            BookName::Joel => 29,
            BookName::Amos => 30,
            BookName::Obadiah => 31,
            BookName::Jonah => 32,
            BookName::Micah => 33,
            BookName::Nahum => 34,
            BookName::Habakkuk => 35,
            BookName::Zephaniah => 36,
            BookName::Haggai => 37,
            BookName::Zechariah => 38,
            BookName::Malachi => 39,
            BookName::Matthew => 40,
            BookName::Mark => 41,
            BookName::Luke => 42,
            BookName::John => 43,
            BookName::Acts => 44,
            BookName::Romans => 45,
            BookName::FirstCorinthians => 46,
            BookName::SecondCorinthians => 47,
            BookName::Galatians => 48,
            BookName::Ephesians => 49,
            BookName::Philippians => 50,
            BookName::Colossians => 51,
            BookName::FirstThessalonians => 52,
            BookName::SecondThessalonians => 53,
            BookName::FirstTimothy => 54,
            BookName::SecondTimothy => 55,
            BookName::Titus => 56,
            BookName::Philemon => 57,
            BookName::Hebrews => 58,
            BookName::James => 59,
            BookName::FirstPeter => 60,
            BookName::SecondPeter => 61,
            BookName::FirstJohn => 62,
            BookName::SecondJohn => 63,
            BookName::ThirdJohn => 64,
            BookName::Jude => 65,
            BookName::Revelation => 66,
        }
    }

    /// The book identity for an ordinal, as a mathematical function:
    /// defined exactly on 1 through 66.
    pub open spec fn spec_from_index(index: u32) -> Option<BookName> {
        match index {
            1 => Some(BookName::Genesis),
            2 => Some(BookName::Exodus),
            3 => Some(BookName::Leviticus),
            4 => Some(BookName::Numbers),
            5 => Some(BookName::Deuteronomy),
            6 => Some(BookName::Joshua),
            7 => Some(BookName::Judges),
            8 => Some(BookName::Ruth),
            9 => Some(BookName::FirstSamuel),
            10 => Some(BookName::SecondSamuel),
            11 => Some(BookName::FirstKings),
            12 => Some(BookName::SecondKings),
            13 => Some(BookName::FirstChronicles),
            14 => Some(BookName::SecondChronicles),
            15 => Some(BookName::Ezra),
            16 => Some(BookName::Nehemiah),
            17 => Some(BookName::Esther),
            18 => Some(BookName::Job),
            19 => Some(BookName::Psalms),
            20 => Some(BookName::Proverbs),
            21 => Some(BookName::Ecclesiastes),
            22 => Some(BookName::SongOfSolomon),
            23 => Some(BookName::Isaiah),
            24 => Some(BookName::Jeremiah),
            25 => Some(BookName::Lamentations),
            26 => Some(BookName::Ezekiel),
            27 => Some(BookName::Daniel),
            28 => Some(BookName::Hosea),
            29 => Some(BookName::Joel),
            30 => Some(BookName::Amos),
            31 => Some(BookName::Obadiah),
            32 => Some(BookName::Jonah),
            33 => Some(BookName::Micah),
            34 => Some(BookName::Nahum),
            35 => Some(BookName::Habakkuk),
            36 => Some(BookName::Zephaniah),
            37 => Some(BookName::Haggai),
            38 => Some(BookName::Zechariah),
            39 => Some(BookName::Malachi),
            40 => Some(BookName::Matthew),
            41 => Some(BookName::Mark),
            42 => Some(BookName::Luke),
            43 => Some(BookName::John),
            44 => Some(BookName::Acts),
            45 => Some(BookName::Romans),
            46 => Some(BookName::FirstCorinthians),
            47 => Some(BookName::SecondCorinthians),
            48 => Some(BookName::Galatians),
            49 => Some(BookName::Ephesians),
            50 => Some(BookName::Philippians),
            51 => Some(BookName::Colossians),
            52 => Some(BookName::FirstThessalonians),
            53 => Some(BookName::SecondThessalonians),
            54 => Some(BookName::FirstTimothy),
            55 => Some(BookName::SecondTimothy),
            56 => Some(BookName::Titus),
            57 => Some(BookName::Philemon),
            58 => Some(BookName::Hebrews),
            59 => Some(BookName::James),
            60 => Some(BookName::FirstPeter),
            61 => Some(BookName::SecondPeter),
            62 => Some(BookName::FirstJohn),
            63 => Some(BookName::SecondJohn),
            64 => Some(BookName::ThirdJohn),
            65 => Some(BookName::Jude),
            66 => Some(BookName::Revelation),
            _ => None,
        }
    }
    /// The book identity for an ordinal: defined exactly on 1 through 66.
    pub fn from_index(index: u32) -> (r: Option<BookName>)
        ensures
            r == Self::spec_from_index(index),
            r is Some <==> 1 <= index <= 66,
            r matches Some(b) ==> b.spec_ordinal() == index,
    {
        match index {
            1 => Some(BookName::Genesis),
            2 => Some(BookName::Exodus),
            3 => Some(BookName::Leviticus),
            4 => Some(BookName::Numbers),
            5 => Some(BookName::Deuteronomy),
            6 => Some(BookName::Joshua),
            7 => Some(BookName::Judges),
            8 => Some(BookName::Ruth),
            9 => Some(BookName::FirstSamuel),
            10 => Some(BookName::SecondSamuel),
            11 => Some(BookName::FirstKings),
            12 => Some(BookName::SecondKings),
            13 => Some(BookName::FirstChronicles),
            14 => Some(BookName::SecondChronicles),
            15 => Some(BookName::Ezra),
            16 => Some(BookName::Nehemiah),
            17 => Some(BookName::Esther),
            18 => Some(BookName::Job),
            19 => Some(BookName::Psalms),
            20 => Some(BookName::Proverbs),
            21 => Some(BookName::Ecclesiastes),
            22 => Some(BookName::SongOfSolomon),
            23 => Some(BookName::Isaiah),
            24 => Some(BookName::Jeremiah),
            25 => Some(BookName::Lamentations),
            26 => Some(BookName::Ezekiel),
            27 => Some(BookName::Daniel),
            28 => Some(BookName::Hosea),
            29 => Some(BookName::Joel),
            30 => Some(BookName::Amos),
            31 => Some(BookName::Obadiah),
            32 => Some(BookName::Jonah),
            33 => Some(BookName::Micah),
            34 => Some(BookName::Nahum),
            35 => Some(BookName::Habakkuk),
            36 => Some(BookName::Zephaniah),
            37 => Some(BookName::Haggai),
            38 => Some(BookName::Zechariah),
            39 => Some(BookName::Malachi),
            40 => Some(BookName::Matthew),
            41 => Some(BookName::Mark),
            42 => Some(BookName::Luke),
            43 => Some(BookName::John),
            44 => Some(BookName::Acts),
            45 => Some(BookName::Romans),
            46 => Some(BookName::FirstCorinthians),
            47 => Some(BookName::SecondCorinthians),
            48 => Some(BookName::Galatians),
            49 => Some(BookName::Ephesians),
            50 => Some(BookName::Philippians),
            51 => Some(BookName::Colossians),
            52 => Some(BookName::FirstThessalonians),
            53 => Some(BookName::SecondThessalonians),
            54 => Some(BookName::FirstTimothy),
            55 => Some(BookName::SecondTimothy),
            56 => Some(BookName::Titus),
            57 => Some(BookName::Philemon),
            58 => Some(BookName::Hebrews),
            59 => Some(BookName::James),
            60 => Some(BookName::FirstPeter),
            61 => Some(BookName::SecondPeter),
            62 => Some(BookName::FirstJohn),
            63 => Some(BookName::SecondJohn),
            64 => Some(BookName::ThirdJohn),
            65 => Some(BookName::Jude),
            66 => Some(BookName::Revelation),
            _ => None,
        }
    }

    /// The canonical display name of this book.
    pub open spec fn spec_display_name(self) -> Seq<char> {
        match self {
            BookName::Genesis => "Genesis"@,
            BookName::Exodus => "Exodus"@,
            BookName::Leviticus => "Leviticus"@,
            BookName::Numbers => "Numbers"@,
            BookName::Deuteronomy => "Deuteronomy"@,
            BookName::Joshua => "Joshua"@,
            BookName::Judges => "Judges"@,
            BookName::Ruth => "Ruth"@,
            BookName::FirstSamuel => "I Samuel"@,
            BookName::SecondSamuel => "II Samuel"@,
            BookName::FirstKings => "I Kings"@,
            BookName::SecondKings => "II Kings"@,
            BookName::FirstChronicles => "I Chronicles"@,
            BookName::SecondChronicles => "II Chronicles"@,
            BookName::Ezra => "Ezra"@,
            BookName::Nehemiah => "Nehemiah"@,
            BookName::Esther => "Esther"@,
            BookName::Job => "Job"@,
            BookName::Psalms => "Psalms"@,
            BookName::Proverbs => "Proverbs"@,
            BookName::Ecclesiastes => "Ecclesiastes"@,
            BookName::SongOfSolomon => "Song of Solomon"@,
            BookName::Isaiah => "Isaiah"@,
            BookName::Jeremiah => "Jeremiah"@,
            BookName::Lamentations => "Lamentations"@,
            BookName::Ezekiel => "Ezekiel"@,
            BookName::Daniel => "Daniel"@,
            BookName::Hosea => "Hosea"@,
            BookName::Joel => "Joel"@,
            BookName::Amos => "Amos"@,
            BookName::Obadiah => "Obadiah"@,
            BookName::Jonah => "Jonah"@,
            BookName::Micah => "Micah"@,
            BookName::Nahum => "Nahum"@,
            BookName::Habakkuk => "Habakkuk"@,
            BookName::Zephaniah => "Zephaniah"@,
            BookName::Haggai => "Haggai"@,
            BookName::Zechariah => "Zechariah"@,
            BookName::Malachi => "Malachi"@,
            BookName::Matthew => "Matthew"@,
            BookName::Mark => "Mark"@,
            BookName::Luke => "Luke"@,
            BookName::John => "John"@,
            BookName::Acts => "Acts"@,
            BookName::Romans => "Romans"@,
            BookName::FirstCorinthians => "I Corinthians"@,
            BookName::SecondCorinthians => "II Corinthians"@,
            BookName::Galatians => "Galatians"@,
            BookName::Ephesians => "Ephesians"@,
            BookName::Philippians => "Philippians"@,
            BookName::Colossians => "Colossians"@,
            BookName::FirstThessalonians => "I Thessalonians"@,
            BookName::SecondThessalonians => "II Thessalonians"@,
            BookName::FirstTimothy => "I Timothy"@,
            BookName::SecondTimothy => "II Timothy"@,
            BookName::Titus => "Titus"@,
            BookName::Philemon => "Philemon"@,
            BookName::Hebrews => "Hebrews"@,
            BookName::James => "James"@,
            BookName::FirstPeter => "I Peter"@,
            BookName::SecondPeter => "II Peter"@,
            BookName::FirstJohn => "I John"@,
            BookName::SecondJohn => "II John"@,
            BookName::ThirdJohn => "III John"@,
            BookName::Jude => "Jude"@,
            BookName::Revelation => "Revelation"@,
        }
    }

    /// The canonical display name of this book.
    pub fn display_name(self) -> (r: &'static str)
        ensures
            r@ == self.spec_display_name(),
    {
        match self {
            BookName::Genesis => "Genesis",
            BookName::Exodus => "Exodus",
            BookName::Leviticus => "Leviticus",
            BookName::Numbers => "Numbers",
            BookName::Deuteronomy => "Deuteronomy",
            BookName::Joshua => "Joshua",
            BookName::Judges => "Judges",
            BookName::Ruth => "Ruth",
            BookName::FirstSamuel => "I Samuel",
            BookName::SecondSamuel => "II Samuel",
            BookName::FirstKings => "I Kings",
            BookName::SecondKings => "II Kings",
            BookName::FirstChronicles => "I Chronicles",
            BookName::SecondChronicles => "II Chronicles",
            BookName::Ezra => "Ezra",
            BookName::Nehemiah => "Nehemiah",
            BookName::Esther => "Esther",
            BookName::Job => "Job",
            BookName::Psalms => "Psalms",
            BookName::Proverbs => "Proverbs",
            BookName::Ecclesiastes => "Ecclesiastes",
            BookName::SongOfSolomon => "Song of Solomon",
            BookName::Isaiah => "Isaiah",
            BookName::Jeremiah => "Jeremiah",
            BookName::Lamentations => "Lamentations",
            BookName::Ezekiel => "Ezekiel",
            BookName::Daniel => "Daniel",
            BookName::Hosea => "Hosea",
            BookName::Joel => "Joel",
            BookName::Amos => "Amos",
            BookName::Obadiah => "Obadiah",
            BookName::Jonah => "Jonah",
            BookName::Micah => "Micah",
            BookName::Nahum => "Nahum",
            BookName::Habakkuk => "Habakkuk",
            BookName::Zephaniah => "Zephaniah",
            BookName::Haggai => "Haggai",
            BookName::Zechariah => "Zechariah",
            BookName::Malachi => "Malachi",
            BookName::Matthew => "Matthew",
            BookName::Mark => "Mark",
            BookName::Luke => "Luke",
            BookName::John => "John",
            BookName::Acts => "Acts",
            BookName::Romans => "Romans",
            BookName::FirstCorinthians => "I Corinthians",
            BookName::SecondCorinthians => "II Corinthians",
            BookName::Galatians => "Galatians",
            BookName::Ephesians => "Ephesians",
            BookName::Philippians => "Philippians",
            BookName::Colossians => "Colossians",
            BookName::FirstThessalonians => "I Thessalonians",
            BookName::SecondThessalonians => "II Thessalonians",
            BookName::FirstTimothy => "I Timothy",
            BookName::SecondTimothy => "II Timothy",
            BookName::Titus => "Titus",
            BookName::Philemon => "Philemon",
            BookName::Hebrews => "Hebrews",
            BookName::James => "James",
            BookName::FirstPeter => "I Peter",
            BookName::SecondPeter => "II Peter",
            BookName::FirstJohn => "I John",
            BookName::SecondJohn => "II John",
            BookName::ThirdJohn => "III John",
            BookName::Jude => "Jude",
            BookName::Revelation => "Revelation",
        }
    }
}

/// A short fingerprint of a name: its length together with its first three
/// and last characters, packed into one integer.
pub open spec fn name_code(s: Seq<char>) -> int
    recommends
        s.len() >= 3,
{
    s.len() * 0x100000000 + (s[0] as int) * 0x1000000 + (s[1] as int) * 0x10000 + (s[2] as int)
        * 0x100 + (s[s.len() - 1] as int)
}

/// The fingerprint of each book's display name.
pub open spec fn spec_book_code(b: BookName) -> int {
    match b {
        BookName::Genesis => 0x747656e73,
        BookName::Exodus => 0x645786f73,
        BookName::Leviticus => 0x94c657673,
        BookName::Numbers => 0x74e756d73,
        BookName::Deuteronomy => 0xb44657579,
        BookName::Joshua => 0x64a6f7361,
        BookName::Judges => 0x64a756473,
        BookName::Ruth => 0x452757468,
        BookName::FirstSamuel => 0x84920536c,
        BookName::SecondSamuel => 0x94949206c,
        BookName::FirstKings => 0x749204b73,
        BookName::SecondKings => 0x849492073,
        BookName::FirstChronicles => 0xc49204373,
        BookName::SecondChronicles => 0xd49492073,
        BookName::Ezra => 0x4457a7261,
        BookName::Nehemiah => 0x84e656868,
        BookName::Esther => 0x645737472,
        BookName::Job => 0x34a6f6262,
        BookName::Psalms => 0x650736173,
        BookName::Proverbs => 0x850726f73,
        BookName::Ecclesiastes => 0xc45636373,
        BookName::SongOfSolomon => 0xf536f6e6e,
        BookName::Isaiah => 0x649736168,
        BookName::Jeremiah => 0x84a657268,
        BookName::Lamentations => 0xc4c616d73,
        BookName::Ezekiel => 0x7457a656c,
        BookName::Daniel => 0x644616e6c,
        BookName::Hosea => 0x5486f7361,
        BookName::Joel => 0x44a6f656c,
        BookName::Amos => 0x4416d6f73,
        BookName::Obadiah => 0x74f626168,
        BookName::Jonah => 0x54a6f6e68,
        BookName::Micah => 0x54d696368,
        BookName::Nahum => 0x54e61686d,
        BookName::Habakkuk => 0x84861626b,
        BookName::Zephaniah => 0x95a657068,
        BookName::Haggai => 0x648616769,
        BookName::Zechariah => 0x95a656368,
        BookName::Malachi => 0x74d616c69,
        BookName::Matthew => 0x74d617477,
        BookName::Mark => 0x44d61726b,
        BookName::Luke => 0x44c756b65,
        BookName::John => 0x44a6f686e,
        BookName::Acts => 0x441637473,
        BookName::Romans => 0x6526f6d73,
        BookName::FirstCorinthians => 0xd49204373,
        BookName::SecondCorinthians => 0xe49492073,
        BookName::Galatians => 0x947616c73,
        BookName::Ephesians => 0x945706873,
        BookName::Philippians => 0xb50686973,
        BookName::Colossians => 0xa436f6c73,
        BookName::FirstThessalonians => 0xf49205473,
        BookName::SecondThessalonians => 0x1049492073,
        BookName::FirstTimothy => 0x949205479,
        BookName::SecondTimothy => 0xa49492079,
        BookName::Titus => 0x554697473,
        BookName::Philemon => 0x85068696e,
        BookName::Hebrews => 0x748656273,
        BookName::James => 0x54a616d73,
        BookName::FirstPeter => 0x749205072,
        BookName::SecondPeter => 0x849492072,
        BookName::FirstJohn => 0x649204a6e,
        BookName::SecondJohn => 0x74949206e,
        BookName::ThirdJohn => 0x84949496e,
        BookName::Jude => 0x44a756465,
        BookName::Revelation => 0xa5265766e,
    }
}

proof fn lemma_book_code(b: BookName)
    ensures
        name_code(b.spec_display_name()) == spec_book_code(b),
        b.spec_display_name().len() >= 3,
{
    match b {
        BookName::Genesis => {
            reveal_strlit("Genesis");
        },
        BookName::Exodus => {
            reveal_strlit("Exodus");
        },
        BookName::Leviticus => {
            reveal_strlit("Leviticus");
        },
        BookName::Numbers => {
            reveal_strlit("Numbers");
        },
        BookName::Deuteronomy => {
            reveal_strlit("Deuteronomy");
        },
        BookName::Joshua => {
            reveal_strlit("Joshua");
        },
        BookName::Judges => {
            reveal_strlit("Judges");
        },
        BookName::Ruth => {
            reveal_strlit("Ruth");
        },
        BookName::FirstSamuel => {
            reveal_strlit("I Samuel");
        },
        BookName::SecondSamuel => {
            reveal_strlit("II Samuel");
        },
        BookName::FirstKings => {
            reveal_strlit("I Kings");
        },
        BookName::SecondKings => {
            reveal_strlit("II Kings");
        },
        BookName::FirstChronicles => {
            reveal_strlit("I Chronicles");
        },
        BookName::SecondChronicles => {
            reveal_strlit("II Chronicles");
        },
        BookName::Ezra => {
            reveal_strlit("Ezra");
        },
        BookName::Nehemiah => {
            reveal_strlit("Nehemiah");
        },
        BookName::Esther => {
            reveal_strlit("Esther");
        },
        BookName::Job => {
            reveal_strlit("Job");
        },
        BookName::Psalms => {
            reveal_strlit("Psalms");
        },
        BookName::Proverbs => {
            reveal_strlit("Proverbs");
        },
        BookName::Ecclesiastes => {
            reveal_strlit("Ecclesiastes");
        },
        BookName::SongOfSolomon => {
            reveal_strlit("Song of Solomon");
        },
        BookName::Isaiah => {
            reveal_strlit("Isaiah");
        },
        BookName::Jeremiah => {
            reveal_strlit("Jeremiah");
        },
        BookName::Lamentations => {
            reveal_strlit("Lamentations");
        },
        BookName::Ezekiel => {
            reveal_strlit("Ezekiel");
        },
        BookName::Daniel => {
            reveal_strlit("Daniel");
        },
        BookName::Hosea => {
            reveal_strlit("Hosea");
        },
        BookName::Joel => {
            reveal_strlit("Joel");
        },
        BookName::Amos => {
            reveal_strlit("Amos");
        },
        BookName::Obadiah => {
            reveal_strlit("Obadiah");
        },
        BookName::Jonah => {
            reveal_strlit("Jonah");
        },
        BookName::Micah => {
            reveal_strlit("Micah");
        },
        BookName::Nahum => {
            reveal_strlit("Nahum");
        },
        BookName::Habakkuk => {
            reveal_strlit("Habakkuk");
        },
        BookName::Zephaniah => {
            reveal_strlit("Zephaniah");
        },
        BookName::Haggai => {
            reveal_strlit("Haggai");
        },
        BookName::Zechariah => {
            reveal_strlit("Zechariah");
        },
        BookName::Malachi => {
            reveal_strlit("Malachi");
        },
        BookName::Matthew => {
            reveal_strlit("Matthew");
        },
        BookName::Mark => {
            reveal_strlit("Mark");
        },
        BookName::Luke => {
            reveal_strlit("Luke");
        },
        BookName::John => {
            reveal_strlit("John");
        },
        BookName::Acts => {
            reveal_strlit("Acts");
        },
        BookName::Romans => {
            reveal_strlit("Romans");
        },
        BookName::FirstCorinthians => {
            reveal_strlit("I Corinthians");
        },
        BookName::SecondCorinthians => {
            reveal_strlit("II Corinthians");
        },
        BookName::Galatians => {
            reveal_strlit("Galatians");
        },
        BookName::Ephesians => {
            reveal_strlit("Ephesians");
        },
        BookName::Philippians => {
            reveal_strlit("Philippians");
        },
        BookName::Colossians => {
            reveal_strlit("Colossians");
        },
        BookName::FirstThessalonians => {
            reveal_strlit("I Thessalonians");
        },
        BookName::SecondThessalonians => {
            reveal_strlit("II Thessalonians");
        },
        BookName::FirstTimothy => {
            reveal_strlit("I Timothy");
        },
        BookName::SecondTimothy => {
            reveal_strlit("II Timothy");
        },
        BookName::Titus => {
            reveal_strlit("Titus");
        },
        BookName::Philemon => {
            reveal_strlit("Philemon");
        },
        BookName::Hebrews => {
            reveal_strlit("Hebrews");
        },
        BookName::James => {
            reveal_strlit("James");
        },
        BookName::FirstPeter => {
            reveal_strlit("I Peter");
        },
        BookName::SecondPeter => {
            reveal_strlit("II Peter");
        },
        BookName::FirstJohn => {
            reveal_strlit("I John");
        },
        BookName::SecondJohn => {
            reveal_strlit("II John");
        },
        BookName::ThirdJohn => {
            reveal_strlit("III John");
        },
        BookName::Jude => {
            reveal_strlit("Jude");
        },
        BookName::Revelation => {
            reveal_strlit("Revelation");
        },
    }
}

/// No ordinal is shared: two distinct books never have the same ordinal.
pub proof fn lemma_ordinal_injective()
    ensures
        forall|a: BookName, b: BookName|
            #[trigger] a.spec_ordinal() == #[trigger] b.spec_ordinal() ==> a == b,
{
}

/// All 66 display names are distinct, non-empty strings.
pub proof fn lemma_display_names_distinct()
    ensures
        forall|a: BookName, b: BookName|
            #[trigger] a.spec_display_name() == #[trigger] b.spec_display_name() ==> a == b,
        forall|a: BookName| (#[trigger] a.spec_display_name()).len() > 0,
{
    assert forall|a: BookName| (#[trigger] a.spec_display_name()).len() > 0 by {
        lemma_book_code(a);
    }
    assert forall|a: BookName, b: BookName|
        #[trigger] a.spec_display_name() == #[trigger] b.spec_display_name() implies a == b by {
        lemma_book_code(a);
        lemma_book_code(b);
        assert(spec_book_code(a) == spec_book_code(b));
    }
}

} // verus!

use vstd::prelude::*;
use crate::codec::{encodable, spec_encode_bible, DecodeError};
use crate::model::{Bible, BibleView, Edition};

verus! {

/// Why a corpus could not be produced at start-up: the snapshot handed in
/// was built for another edition, or it does not decode at all. Both are
/// build-configuration or corruption faults; neither is retried.
#[derive(Debug, Clone, Copy, PartialEq, Eq, Structural)]
pub enum LoadError {
    UnsupportedEdition,
    Decode(DecodeError),
}

impl Bible {
    /// Builds the corpus for the requested edition from an embedded
    /// snapshot. The caller supplies the bytes that were compiled into the
    /// running artifact for this edition; embedding them is the build's
    /// concern, not this crate's. Fails with `UnsupportedEdition` when the
    /// snapshot was built for a different edition, and passes a
    /// [`DecodeError`] through when the bytes are corrupt.
    pub fn new(edition: Edition, snapshot: &[u8]) -> (r: Result<Bible, LoadError>)
        ensures
            r matches Ok(b) ==> encodable(b@) && snapshot@ == spec_encode_bible(b@) && b@.edition
                == edition,
            forall|c: BibleView|
                encodable(c) && snapshot@ == spec_encode_bible(c) && c.edition == edition ==> (
                r matches Ok(b) && b@ == c),
            forall|c: BibleView|
                encodable(c) && snapshot@ == spec_encode_bible(c) && c.edition != edition ==> (
                r matches Err(e) && e == LoadError::UnsupportedEdition),
            r matches Err(e) ==> (e == LoadError::UnsupportedEdition || !(exists|c: BibleView|
                encodable(c) && snapshot@ == spec_encode_bible(c))),
    {
        match Bible::decode(snapshot) {
            Err(e) => {
                proof {
                    if exists|c: BibleView| encodable(c) && snapshot@ == spec_encode_bible(c) {
                        let c = choose|c: BibleView|
                            encodable(c) && snapshot@ == spec_encode_bible(c);
                        assert(encodable(c) && snapshot@ == spec_encode_bible(c));
                        assert(false);
                    }
                }
                Err(LoadError::Decode(e))
            },
            Ok(b) => {
                if b.edition == edition {
                    Ok(b)
                } else {
                    Err(LoadError::UnsupportedEdition)
                }
            },
        }
    }
}


impl Edition {
    /// The edition a source document's file stem names, if any. The
    /// offline pipeline names each source file after its edition.
    pub fn for_source_name(stem: &str) -> (r: Option<Edition>)
        ensures
            stem@ == "EnglishKJBible"@ ==> r == Some(Edition::EnglishKingJames),
            stem@ == "EnglishASVBible"@ ==> r == Some(Edition::EnglishASV),
            stem@ != "EnglishKJBible"@ && stem@ != "EnglishASVBible"@ ==> r is None,
    {
        proof {
            reveal_strlit("EnglishKJBible");
            reveal_strlit("EnglishASVBible");
            assert("EnglishKJBible"@.len() == 14);
            assert("EnglishASVBible"@.len() == 15);
            assert("EnglishKJBible"@ != "EnglishASVBible"@);
        }
        let name = String::from_str(stem);
        if name == String::from_str("EnglishKJBible") {
            Some(Edition::EnglishKingJames)
        } else if name == String::from_str("EnglishASVBible") {
            Some(Edition::EnglishASV)
        } else {
            None
        }
    }
}

} // verus!

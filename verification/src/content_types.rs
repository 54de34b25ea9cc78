use vstd::prelude::*;

verus! {

/// The five record content kinds of the outer framing protocol.
#[derive(Clone, Copy, PartialEq, Eq, Structural, Debug)]
pub enum ContentType {
    Invalid,
    ChangeCipherSpec,
    Alert,
    Handshake,
    ApplicationData,
}

impl ContentType {
    pub open spec fn tag_spec(self) -> u8 {
        match self {
            ContentType::Invalid => 0,
            ContentType::ChangeCipherSpec => 20,
            ContentType::Alert => 21,
            ContentType::Handshake => 22,
            ContentType::ApplicationData => 23,
        }
    }

    /// The wire tag of this content kind.
    pub fn tag(&self) -> (r: u8)
        ensures
            r == self.tag_spec(),
    {
        match self {
            ContentType::Invalid => 0,
            ContentType::ChangeCipherSpec => 20,
            ContentType::Alert => 21,
            ContentType::Handshake => 22,
            ContentType::ApplicationData => 23,
        }
    }

    /// The content kind a record header tag byte selects; a byte outside
    /// the four assigned wire values is unknown.
    pub open spec fn of_spec(tag: u8) -> Option<ContentType> {
        if tag == 20 {
            Some(ContentType::ChangeCipherSpec)
        } else if tag == 21 {
            Some(ContentType::Alert)
        } else if tag == 22 {
            Some(ContentType::Handshake)
        } else if tag == 23 {
            Some(ContentType::ApplicationData)
        } else {
            None
        }
    }

    pub fn of(tag: u8) -> (r: Option<ContentType>)
        ensures
            r == Self::of_spec(tag),
    {
        if tag == 20 {
            Some(ContentType::ChangeCipherSpec)
        } else if tag == 21 {
            Some(ContentType::Alert)
        } else if tag == 22 {
            Some(ContentType::Handshake)
        } else if tag == 23 {
            Some(ContentType::ApplicationData)
        } else {
            None
        }
    }
}

} // verus!

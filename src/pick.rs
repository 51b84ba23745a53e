//! The kinds of file a user can pick to attach to a card.
use vstd::prelude::*;

verus! {

/// What a file picker is asked for.
#[derive(Clone, Copy, Debug, PartialEq, Eq, Structural)]
pub enum PickKind {
    Image,
    Archive,
}

impl PickKind {
    /// The picker's filter: its label and the extensions it accepts.
    pub fn dialog_filter(&self) -> (r: (&'static str, Vec<&'static str>))
        ensures
            *self == PickKind::Image ==> r.0@ == "Images"@ && r.1@.len() == 4 && r.1@[0]@ == "png"@
                && r.1@[1]@ == "jpg"@ && r.1@[2]@ == "jpeg"@ && r.1@[3]@ == "webp"@,
            *self == PickKind::Archive ==> r.0@ == "Archives"@ && r.1@.len() == 4 && r.1@[0]@ == "zip"@
                && r.1@[1]@ == "tar"@ && r.1@[2]@ == "gz"@ && r.1@[3]@ == "7z"@,
    {
        match self {
            PickKind::Image => ("Images", vec!["png", "jpg", "jpeg", "webp"]),
            PickKind::Archive => ("Archives", vec!["zip", "tar", "gz", "7z"]),
        }
    }

    /// The extension to store a picked file under: its own, or the kind's
    /// usual one when it has none.
    pub fn default_extension(&self, picked_extension: Option<&str>) -> (r: String)
        ensures
            picked_extension matches Some(e) ==> r@ == e@,
            picked_extension is None && *self == PickKind::Image ==> r@ == "png"@,
            picked_extension is None && *self == PickKind::Archive ==> r@ == "zip"@,
    {
        match picked_extension {
            Some(e) => String::from_str(e),
            None => match self {
                PickKind::Image => String::from_str("png"),
                PickKind::Archive => String::from_str("zip"),
            },
        }
    }
}

} // verus!

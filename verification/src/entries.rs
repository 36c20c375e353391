//! Reading the entries that a document refers to.

use vstd::prelude::*;

use crate::names::{extension_in, path_extension};
use crate::text::same_text;

verus! {

/// The bytes of an entry that may be absent.
pub open spec fn bytes_of(r: Option<Vec<u8>>) -> Option<Seq<u8>> {
    match r {
        Some(bytes) => Some(bytes@),
        None => None,
    }
}

/// An image: the extension of the file that it is written to, and its bytes.
#[derive(Debug)]
pub struct ImageFile {
    pub extension: String,
    pub bytes: Vec<u8>,
}

/// What an image holds.
pub struct ImageView {
    pub extension: Seq<char>,
    pub bytes: Seq<u8>,
}

/// What an image that may be absent holds.
pub open spec fn image_view(r: Option<ImageFile>) -> Option<ImageView> {
    match r {
        Some(image) => Some(ImageView { extension: image.extension@, bytes: image.bytes@ }),
        None => None,
    }
}

/// The extension of the file that the image in an entry is written to: that of the entry, or the
/// one for bytes of any kind.
pub open spec fn image_extension(name: Seq<char>, drives: bool) -> Seq<char> {
    match path_extension(name, drives) {
        Some(e) => e,
        None => "bin"@,
    }
}

/// The images that named entries are, where paths can begin with a drive or not.
pub open spec fn images_from(
    entries: spec_fn(Seq<char>) -> Option<Seq<u8>>,
    drives: bool,
) -> spec_fn(Seq<char>) -> Option<ImageView> {
    |name: Seq<char>|
        match entries(name) {
            Some(bytes) => Some(ImageView { extension: image_extension(name, drives), bytes }),
            None => None,
        }
}

/// The image that the bytes of a named entry are.
pub fn as_image(name: &str, bytes: Option<Vec<u8>>, drives: bool) -> (r: Option<ImageFile>)
    ensures
        image_view(r) == match bytes_of(bytes) {
            Some(b) => Some(ImageView { extension: image_extension(name@, drives), bytes: b }),
            None => None,
        },
{
    match bytes {
        Some(bytes) => {
            let extension = match extension_in(name, drives) {
                Some(e) => e,
                None => "bin".to_owned(),
            };
            Some(ImageFile { extension, bytes })
        },
        None => None,
    }
}

/// A source of images in named entries. What an entry holds does not change by reading it.
pub trait EntryReader {
    /// What each name leads to.
    spec fn entries(&self) -> spec_fn(Seq<char>) -> Option<ImageView>;

    /// The image in an entry; `None` where there is none, or where it cannot be read.
    fn read_entry(&mut self, name: &str) -> (r: Option<ImageFile>)
        ensures
            final(self).entries() == old(self).entries(),
            image_view(r) == (old(self).entries())(name@),
    ;
}

/// A source without entries.
pub struct NoEntries;

impl EntryReader for NoEntries {
    open spec fn entries(&self) -> spec_fn(Seq<char>) -> Option<ImageView> {
        |name: Seq<char>| None::<ImageView>
    }

    fn read_entry(&mut self, name: &str) -> (r: Option<ImageFile>) {
        None
    }
}

/// An entry, with its name.
#[derive(Debug)]
pub struct NamedEntry {
    pub name: String,
    pub bytes: Vec<u8>,
}

/// A source of entries that stand in a list. Of two with one name the first holds.
#[derive(Debug)]
pub struct ListedEntries {
    pub list: Vec<NamedEntry>,
    /// Whether paths can begin with a drive.
    pub drives: bool,
}

/// The bytes of the first entry of the name from place `from` on.
pub open spec fn listed_from(list: Seq<NamedEntry>, name: Seq<char>, from: int) -> Option<Seq<u8>>
    decreases list.len() - from,
{
    if from >= list.len() {
        None
    } else if list[from].name@ == name {
        Some(list[from].bytes@)
    } else {
        listed_from(list, name, from + 1)
    }
}

/// What each name leads to in a list of entries.
pub open spec fn listed(list: Seq<NamedEntry>) -> spec_fn(Seq<char>) -> Option<Seq<u8>> {
    |name: Seq<char>| listed_from(list, name, 0)
}

impl EntryReader for ListedEntries {
    open spec fn entries(&self) -> spec_fn(Seq<char>) -> Option<ImageView> {
        images_from(listed(self.list@), self.drives)
    }

    fn read_entry(&mut self, name: &str) -> (r: Option<ImageFile>) {
        let mut i: usize = 0;
        while i < self.list.len()
            invariant
                i <= self.list@.len(),
                *self == *old(self),
                listed_from(self.list@, name@, 0) == listed_from(self.list@, name@, i as int),
            decreases self.list.len() - i,
        {
            if same_text(self.list[i].name.as_str(), name) {
                return as_image(name, Some(copy_bytes(&self.list[i].bytes)), self.drives);
            }
            i = i + 1;
        }
        as_image(name, None, self.drives)
    }
}

fn copy_bytes(bytes: &Vec<u8>) -> (r: Vec<u8>)
    ensures
        r@ == bytes@,
{
    let mut r: Vec<u8> = Vec::new();
    let n: usize = bytes.len();
    while r.len() < n
        invariant
            r@.len() <= n == bytes@.len(),
            r@ == bytes@.take(r@.len() as int),
        decreases n - r.len(),
    {
        let i: usize = r.len();
        r.push(bytes[i]);
        assert(r@ == bytes@.take(i + 1));
    }
    r
}

} // verus!

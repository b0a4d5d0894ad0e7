//! The table of extractable content types and the file extension of each.
use vstd::prelude::*;
use vstd::string::*;
use crate::text::{ends_with, has_suffix};

verus! {

/// A mapping from content-type identifiers to file extensions (each with
/// its leading `.`). Lookups match the identifier exactly.
pub struct MimeTypes {
    entries: Vec<(String, String)>,
    map: Ghost<Map<Seq<char>, Seq<char>>>,
}

impl View for MimeTypes {
    type V = Map<Seq<char>, Seq<char>>;

    closed spec fn view(&self) -> Map<Seq<char>, Seq<char>> {
        self.map@
    }
}

/// Whether `name` already ends with one of the extensions of `types`,
/// whichever content type that extension belongs to.
pub open spec fn has_known_extension(types: Map<Seq<char>, Seq<char>>, name: Seq<char>) -> bool {
    exists|k: Seq<char>| types.contains_key(k) && has_suffix(name, #[trigger] types[k])
}

/// The table that extraction uses: four image formats. JPEG is entered twice
/// and its second extension is the one kept.
pub open spec fn standard_mime_types() -> Map<Seq<char>, Seq<char>> {
    Map::empty()
        .insert("image/webp"@, ".webp"@)
        .insert("image/jpeg"@, ".jpeg"@)
        .insert("image/jpeg"@, ".jpg"@)
        .insert("image/png"@, ".png"@)
        .insert("image/svg+xml"@, ".svg"@)
}

impl MimeTypes {
    /// The entries hold each key once, and the mapping is exactly theirs.
    pub closed spec fn wf(&self) -> bool {
        &&& forall|i: int, j: int|
            0 <= i < j < self.entries@.len() ==> #[trigger] self.entries@[i].0@
                != #[trigger] self.entries@[j].0@
        &&& forall|i: int|
            0 <= i < self.entries@.len() ==> {
                &&& self.map@.contains_key(#[trigger] self.entries@[i].0@)
                &&& self.map@[self.entries@[i].0@] == self.entries@[i].1@
            }
        &&& forall|k: Seq<char>|
            #[trigger] self.map@.contains_key(k) ==> exists|i: int|
                0 <= i < self.entries@.len() && #[trigger] self.entries@[i].0@ == k
    }

    /// An empty table.
    pub fn new() -> (r: MimeTypes)
        ensures
            r.wf(),
            r@ == Map::<Seq<char>, Seq<char>>::empty(),
    {
        MimeTypes { entries: Vec::new(), map: Ghost(Map::empty()) }
    }

    /// Maps `content_type` to `extension`, replacing an earlier extension of it.
    pub fn insert(&mut self, content_type: &str, extension: &str)
        requires
            old(self).wf(),
        ensures
            final(self).wf(),
            final(self)@ == old(self)@.insert(content_type@, extension@),
    {
        let key = content_type.to_owned();
        let value = extension.to_owned();
        let ghost new_map = self.map@.insert(content_type@, extension@);
        let n = self.entries.len();
        let mut i: usize = 0;
        while i < n
            invariant
                self.wf(),
                *self == *old(self),
                new_map == old(self)@.insert(content_type@, extension@),
                n == self.entries@.len(),
                i <= n,
                key@ == content_type@,
                value@ == extension@,
                forall|j: int| 0 <= j < i ==> #[trigger] self.entries@[j].0@ != key@,
            decreases n - i,
        {
            if self.entries[i].0 == key {
                let ghost before = self.entries@;
                self.entries.set(i, (key, value));
                self.map = Ghost(new_map);
                assert forall|k: Seq<char>| #[trigger] self.map@.contains_key(k) implies exists|j: int|
                    0 <= j < self.entries@.len() && #[trigger] self.entries@[j].0@ == k by {
                    if k != content_type@ {
                        let j = choose|j: int| 0 <= j < before.len() && #[trigger] before[j].0@ == k;
                        assert(self.entries@[j].0@ == k);
                    } else {
                        assert(self.entries@[i as int].0@ == k);
                    }
                }
                return;
            }
            i = i + 1;
        }
        let ghost before = self.entries@;
        self.entries.push((key, value));
        self.map = Ghost(new_map);
        assert forall|k: Seq<char>| #[trigger] self.map@.contains_key(k) implies exists|j: int|
            0 <= j < self.entries@.len() && #[trigger] self.entries@[j].0@ == k by {
            if k != content_type@ {
                let j = choose|j: int| 0 <= j < before.len() && #[trigger] before[j].0@ == k;
                assert(self.entries@[j].0@ == k);
            } else {
                assert(self.entries@[n as int].0@ == k);
            }
        }
    }

    /// The extension of `content_type`, if it is in the table.
    pub fn get(&self, content_type: &str) -> (r: Option<String>)
        requires
            self.wf(),
        ensures
            match r {
                Some(e) => self@.contains_key(content_type@) && e@ == self@[content_type@],
                None => !self@.contains_key(content_type@),
            },
    {
        let key = content_type.to_owned();
        let n = self.entries.len();
        let mut i: usize = 0;
        while i < n
            invariant
                self.wf(),
                n == self.entries@.len(),
                i <= n,
                key@ == content_type@,
                forall|j: int| 0 <= j < i ==> #[trigger] self.entries@[j].0@ != key@,
            decreases n - i,
        {
            if self.entries[i].0 == key {
                return Some(self.entries[i].1.clone());
            }
            i = i + 1;
        }
        None
    }

    /// Whether `name` already ends with an extension of the table.
    pub fn has_known_extension(&self, name: &str) -> (r: bool)
        requires
            self.wf(),
        ensures
            r == has_known_extension(self@, name@),
    {
        let n = self.entries.len();
        let mut i: usize = 0;
        while i < n
            invariant
                self.wf(),
                n == self.entries@.len(),
                i <= n,
                forall|j: int| 0 <= j < i ==> !has_suffix(name@, #[trigger] self.entries@[j].1@),
            decreases n - i,
        {
            if ends_with(name, self.entries[i].1.as_str()) {
                assert(self@.contains_key(self.entries@[i as int].0@));
                return true;
            }
            i = i + 1;
        }
        assert forall|k: Seq<char>| self@.contains_key(k) implies !has_suffix(name@, #[trigger] self@[k]) by {
            let j = choose|j: int| 0 <= j < self.entries@.len() && #[trigger] self.entries@[j].0@ == k;
            assert(self@[k] == self.entries@[j].1@);
        }
        false
    }
}

/// The content types that extraction recognizes, with their extensions.
pub fn get_mimetypes() -> (r: MimeTypes)
    ensures
        r.wf(),
        r@ == standard_mime_types(),
{
    let mut map = MimeTypes::new();
    map.insert("image/webp", ".webp");
    map.insert("image/jpeg", ".jpeg");
    map.insert("image/jpeg", ".jpg");
    map.insert("image/png", ".png");
    map.insert("image/svg+xml", ".svg");
    map
}

} // verus!

//! Per-image tag selection: among all tags of a repository, pick the latest
//! tag that follows the same formatting pattern as the reference tag.

use core::cmp::Ordering;
use vstd::prelude::*;

use crate::laws::{lemma_compare_antisymmetric, lemma_compare_reflexive, lemma_compare_transitive};
use crate::order::spec_cmp_version;
use crate::version::{spec_same_pattern, spec_tokenize, Version};

verus! {

/// An error in selecting the latest similar tag for one image. Errors are
/// per-image and never fatal to sibling selections.
#[derive(Debug, PartialEq, Eq)]
pub enum TagError {
    /// The image reference has no tag component to pattern-match against.
    ImageMissingTag,
    /// The registry returned tags, but none shared the reference tag's
    /// formatting pattern.
    NoSimilarTag,
    /// The tag-listing collaborator failed; carries its message verbatim.
    Registry(String),
}

impl TagError {
    /// The message describing this error.
    pub open spec fn spec_message(&self) -> Seq<char> {
        match self {
            TagError::ImageMissingTag => "image reference has no tag to match on"@,
            TagError::NoSimilarTag => "no similar tag format found in registry"@,
            TagError::Registry(msg) => msg@,
        }
    }

    /// Renders this error as a message line.
    pub fn message(&self) -> (r: String)
        ensures
            r@ == self.spec_message(),
    {
        match self {
            TagError::ImageMissingTag => "image reference has no tag to match on".to_owned(),
            TagError::NoSimilarTag => "no similar tag format found in registry".to_owned(),
            TagError::Registry(msg) => msg.clone(),
        }
    }
}

/// Whether `tag` follows the same formatting pattern as the reference tag
/// `start`.
pub open spec fn tag_matches(start: Seq<char>, tag: Seq<char>) -> bool {
    spec_same_pattern(spec_tokenize(tag), spec_tokenize(start))
}

/// The character sequences of a sequence of tag strings.
pub open spec fn tag_views(tags: Seq<String>) -> Seq<Seq<char>> {
    tags.map_values(|t: String| t@)
}

/// Position `w` holds the tag the selector must return: it matches the
/// reference pattern, no matching tag compares greater, and every matching
/// tag after it compares strictly less (the last-seen maximum wins, which
/// makes the selection deterministic).
pub open spec fn is_selected(start: Seq<char>, tags: Seq<Seq<char>>, w: int) -> bool {
    &&& 0 <= w < tags.len()
    &&& tag_matches(start, tags[w])
    &&& forall|i: int|
        0 <= i < tags.len() && tag_matches(start, #[trigger] tags[i]) ==> spec_cmp_version(
            spec_tokenize(tags[i]),
            spec_tokenize(tags[w]),
        ) != Ordering::Greater
    &&& forall|i: int|
        w < i < tags.len() && tag_matches(start, #[trigger] tags[i]) ==> spec_cmp_version(
            spec_tokenize(tags[i]),
            spec_tokenize(tags[w]),
        ) == Ordering::Less
}

/// The running state of a paginated tag listing: the tags retrieved so far,
/// and whether an empty page has signalled the end of the listing. The caller
/// keeps requesting pages, resuming at `cursor`, and feeding them to
/// `absorb_page` until `is_done`.
pub struct TagListing {
    tags: Vec<String>,
    done: bool,
}

impl TagListing {
    /// The tags retrieved so far.
    pub closed spec fn spec_tags(&self) -> Seq<String> {
        self.tags@
    }

    /// Whether an empty page has ended the listing.
    pub closed spec fn spec_done(&self) -> bool {
        self.done
    }

    /// Starts a listing with no tags retrieved.
    pub fn new() -> (r: TagListing)
        ensures
            r.spec_tags() == Seq::<String>::empty(),
            !r.spec_done(),
    {
        TagListing { tags: Vec::new(), done: false }
    }

    /// Whether the listing is exhausted.
    pub fn is_done(&self) -> (r: bool)
        ensures
            r == self.spec_done(),
    {
        self.done
    }

    /// The continuation cursor for the next page request: the last tag seen,
    /// or nothing before the first page.
    pub fn cursor(&self) -> (r: Option<&String>)
        ensures
            match r {
                None => self.spec_tags().len() == 0,
                Some(t) => self.spec_tags().len() > 0 && *t == self.spec_tags().last(),
            },
    {
        if self.tags.len() == 0 {
            None
        } else {
            Some(&self.tags[self.tags.len() - 1])
        }
    }

    /// Absorbs one retrieved page: an empty page ends the listing and changes
    /// nothing else; a non-empty page is appended to the retrieved tags in
    /// the order the registry returned them.
    pub fn absorb_page(&mut self, page: Vec<String>)
        requires
            !old(self).spec_done(),
        ensures
            page@.len() == 0 ==> final(self).spec_done() && final(self).spec_tags() == old(
                self,
            ).spec_tags(),
            page@.len() > 0 ==> !final(self).spec_done() && final(self).spec_tags() == old(
                self,
            ).spec_tags() + page@,
    {
        if page.len() == 0 {
            self.done = true;
        } else {
            let mut page = page;
            self.tags.append(&mut page);
        }
    }

    /// The retrieved tags, in the order the registry returned them.
    pub fn into_tags(self) -> (r: Vec<String>)
        ensures
            r@ == self.spec_tags(),
    {
        self.tags
    }
}

/// Selects among `all_tags` the latest tag sharing the formatting pattern of
/// the reference tag `start_tag`: with no reference tag the selection fails
/// with `ImageMissingTag`; with no matching tag it fails with `NoSimilarTag`;
/// otherwise it returns, byte for byte, the matching tag that is greatest in
/// the version order, the last-seen one on ties.
pub fn get_latest_similar_tag(start_tag: Option<&str>, all_tags: &Vec<String>) -> (r: Result<
    String,
    TagError,
>)
    ensures
        match start_tag {
            None => r == Err::<String, TagError>(TagError::ImageMissingTag),
            Some(t) => {
                &&& (r is Ok <==> exists|i: int|
                    0 <= i < all_tags@.len() && tag_matches(t@, #[trigger] tag_views(all_tags@)[i]))
                &&& (r is Err ==> r == Err::<String, TagError>(TagError::NoSimilarTag))
                &&& (r matches Ok(s) ==> exists|w: int|
                    #[trigger] is_selected(t@, tag_views(all_tags@), w) && s@ == tag_views(
                        all_tags@,
                    )[w])
            },
        },
{
    let start = match start_tag {
        None => {
            return Err(TagError::ImageMissingTag);
        },
        Some(t) => t,
    };
    let ghost st = start@;
    let ghost ts = tag_views(all_tags@);
    let start_version = Version::from(start);
    let n = all_tags.len();
    let mut best_idx: usize = 0;
    let mut best_version: Option<Version> = None;
    let mut i: usize = 0;
    while i < n
        invariant
            n == all_tags@.len(),
            i <= n,
            ts == tag_views(all_tags@),
            ts.len() == n,
            start_version@ == spec_tokenize(st),
            forall|k: int| 0 <= k < n ==> #[trigger] ts[k] == all_tags@[k]@,
            best_version is None ==> forall|k: int|
                0 <= k < i ==> !tag_matches(st, #[trigger] ts[k]),
            best_version matches Some(bv) ==> {
                &&& best_idx < i
                &&& bv@ == spec_tokenize(ts[best_idx as int])
                &&& tag_matches(st, ts[best_idx as int])
                &&& forall|k: int|
                    0 <= k < i && tag_matches(st, #[trigger] ts[k]) ==> spec_cmp_version(
                        spec_tokenize(ts[k]),
                        bv@,
                    ) != Ordering::Greater
                &&& forall|k: int|
                    best_idx < k < i && tag_matches(st, #[trigger] ts[k]) ==> spec_cmp_version(
                        spec_tokenize(ts[k]),
                        bv@,
                    ) == Ordering::Less
            },
        decreases n - i,
    {
        let v = Version::from(all_tags[i].as_str());
        if v.is_same_pattern(&start_version) {
            let replace = match &best_version {
                None => true,
                Some(bv) => match v.cmp(bv) {
                    Ordering::Less => false,
                    Ordering::Equal => true,
                    Ordering::Greater => true,
                },
            };
            proof {
                if replace {
                    lemma_compare_reflexive(v@);
                    match best_version {
                        Some(ref bv) => {
                            lemma_compare_antisymmetric(v@, bv@);
                            assert forall|k: int|
                                0 <= k < i && tag_matches(st, #[trigger] ts[k]) implies spec_cmp_version(
                                spec_tokenize(ts[k]),
                                v@,
                            ) != Ordering::Greater by {
                                lemma_compare_transitive(spec_tokenize(ts[k]), bv@, v@);
                            }
                        },
                        None => {},
                    }
                }
            }
            if replace {
                best_idx = i;
                best_version = Some(v);
            }
        }
        i += 1;
    }
    match best_version {
        None => Err(TagError::NoSimilarTag),
        Some(_) => {
            proof {
                assert(is_selected(st, ts, best_idx as int));
            }
            Ok(all_tags[best_idx].clone())
        },
    }
}

} // verus!

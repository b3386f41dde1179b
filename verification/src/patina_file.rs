//! A single template-to-target record inside a Patina.

use vstd::prelude::*;

verus! {

/// Specification-level shape of a [`PatinaFile`].
pub struct PatinaFileSpec {
    /// The record's tags
    pub tags: Seq<Seq<char>>,
    /// The template path as written in the Patina document
    pub template: Seq<char>,
    /// The target path as written in the Patina document
    pub target: Seq<char>,
}

/// A PatinaFile describes a template file and its target output path.
#[derive(Debug, PartialEq)]
pub struct PatinaFile {
    /// An optional list of tags, allowing subsets of files to be selected
    pub tags: Vec<String>,
    /// The path to the template file
    pub template: String,
    /// The path to the target output file
    pub target: String,
}

impl View for PatinaFile {
    type V = PatinaFileSpec;

    open spec fn view(&self) -> PatinaFileSpec {
        PatinaFileSpec {
            tags: self.tags@.map_values(|t: String| t@),
            template: self.template@,
            target: self.target@,
        }
    }
}

impl PatinaFile {
    /// A record with the given template and target and no tags.
    pub fn new(template: &str, target: &str) -> (r: PatinaFile)
        ensures
            r@.template == template@,
            r@.target == target@,
            r@.tags == Seq::<Seq<char>>::empty(),
    {
        let r = PatinaFile {
            tags: Vec::new(),
            template: String::from_str(template),
            target: String::from_str(target),
        };
        proof {
            assert(r@.tags =~= Seq::<Seq<char>>::empty());
        }
        r
    }

    /// A record with the given template, target and tags.
    pub fn new_with_tags(template: &str, target: &str, tags: Vec<&str>) -> (r: PatinaFile)
        ensures
            r@.template == template@,
            r@.target == target@,
            r@.tags == tags@.map_values(|t: &str| t@),
    {
        let mut owned: Vec<String> = Vec::new();
        let mut i: usize = 0;
        while i < tags.len()
            invariant
                i <= tags@.len(),
                owned@.len() == i,
                forall|j: int| 0 <= j < i ==> #[trigger] owned@[j]@ == tags@[j]@,
            decreases tags@.len() - i,
        {
            owned.push(String::from_str(tags[i]));
            i += 1;
        }
        let r = PatinaFile {
            tags: owned,
            template: String::from_str(template),
            target: String::from_str(target),
        };
        proof {
            assert(r@.tags =~= tags@.map_values(|t: &str| t@));
        }
        r
    }

    /// A deep copy of this record.
    pub fn clone_file(&self) -> (r: PatinaFile)
        ensures
            r@ == self@,
    {
        let mut tags: Vec<String> = Vec::new();
        let mut i: usize = 0;
        while i < self.tags.len()
            invariant
                i <= self.tags@.len(),
                tags@.len() == i,
                forall|j: int| 0 <= j < i ==> (#[trigger] tags@[j])@ == self.tags@[j]@,
            decreases self.tags@.len() - i,
        {
            tags.push(self.tags[i].clone());
            i += 1;
        }
        let r = PatinaFile {
            tags,
            template: self.template.clone(),
            target: self.target.clone(),
        };
        proof {
            assert(r@.tags =~= self@.tags);
        }
        r
    }

    /// Whether `tag` is one of this record's tags.
    pub fn contains_tag(&self, tag: &str) -> (r: bool)
        ensures
            r == self@.tags.contains(tag@),
    {
        let mut i: usize = 0;
        while i < self.tags.len()
            invariant
                i <= self.tags@.len(),
                forall|j: int| 0 <= j < i ==> #[trigger] self@.tags[j] != tag@,
            decreases self.tags@.len() - i,
        {
            if crate::utils::str_eq(self.tags[i].as_str(), tag) {
                proof {
                    assert(self@.tags[i as int] == tag@);
                }
                return true;
            }
            i += 1;
        }
        false
    }
}

} // verus!

//! An image as the image list reads it: its size and its repository tags.
use vstd::prelude::*;

verus! {

/// What the list reads of an image.
pub struct Image {
    pub size: u64,
    pub repo_tags: Vec<String>,
}

/// An image as a mathematical value.
pub ghost struct ImageView {
    pub size: u64,
    pub repo_tags: Seq<Seq<char>>,
}

/// The views of a sequence of strings.
pub open spec fn string_views(s: Seq<String>) -> Seq<Seq<char>> {
    s.map_values(|t: String| t@)
}

impl View for Image {
    type V = ImageView;

    open spec fn view(&self) -> ImageView {
        ImageView { size: self.size, repo_tags: string_views(self.repo_tags@) }
    }
}

/// An image that no repository tag names is unused.
pub open spec fn is_unused(v: ImageView) -> bool {
    v.repo_tags.len() == 0
}

impl Image {
    pub fn new(size: u64, repo_tags: Vec<String>) -> (r: Image)
        ensures
            r.size == size,
            r.repo_tags == repo_tags,
    {
        Image { size, repo_tags }
    }

    pub fn size(&self) -> (r: u64)
        ensures
            r == self.size,
    {
        self.size
    }

    pub fn repo_tags(&self) -> (r: &Vec<String>)
        ensures
            r == &self.repo_tags,
    {
        &self.repo_tags
    }
}

impl Clone for Image {
    fn clone(&self) -> (r: Image)
        ensures
            r@ == self@,
    {
        let mut tags: Vec<String> = Vec::new();
        let n = self.repo_tags.len();
        for i in 0..n
            invariant
                n == self.repo_tags.len(),
                tags.len() == i,
                forall|j: int| 0 <= j < i ==> #[trigger] tags@[j]@ == self.repo_tags@[j]@,
        {
            tags.push(self.repo_tags[i].clone());
        }
        assert(string_views(tags@) =~= string_views(self.repo_tags@));
        Image { size: self.size, repo_tags: tags }
    }
}

} // verus!

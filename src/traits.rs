//! Traits: shared behaviour, default methods and trait bounds.
use vstd::prelude::*;
use vstd::laws_cmp::obeys_partial_cmp_spec_properties;
use vstd::std_specs::cmp::PartialOrdSpec;
use crate::generics::none_greater;

verus! {

/// Something that can be summed up in one line.
pub trait Summary {
    /// The one-line summary of this item.
    spec fn summary_of(&self) -> Seq<char>;

    /// The summary of this item.
    fn summarize(&self) -> (r: String)
        ensures
            r@ == self.summary_of();

    /// A note about the author, "(read more...)" unless a type says otherwise.
    fn summarize_author(&self) -> (r: String)
        ensures
            r@ == "(read more...)"@,
    {
        String::from_str("(read more...)")
    }
}

/// A news article.
pub struct NewsArticle {
    pub headline: String,
    pub location: String,
    pub author: String,
    pub content: String,
}

impl Summary for NewsArticle {
    /// "headline, by author (location)".
    open spec fn summary_of(&self) -> Seq<char> {
        self.headline@ + ", by "@ + self.author@ + " ("@ + self.location@ + ")"@
    }

    fn summarize(&self) -> (r: String) {
        let mut s = self.headline.clone();
        s.append(", by ");
        s.append(self.author.as_str());
        s.append(" (");
        s.append(self.location.as_str());
        s.append(")");
        s
    }
}

/// A short post.
pub struct Tweet {
    pub username: String,
    pub content: String,
    pub reply: bool,
    pub retweet: bool,
}

impl Summary for Tweet {
    /// "username: content".
    open spec fn summary_of(&self) -> Seq<char> {
        self.username@ + ": "@ + self.content@
    }

    fn summarize(&self) -> (r: String) {
        let mut s = self.username.clone();
        s.append(": ");
        s.append(self.content.as_str());
        s
    }
}

/// A largest element of a non-empty slice: the first one that no later element exceeds.
/// For a type whose comparison is consistent, no element is greater than the result.
pub fn largest<T: PartialOrd>(list: &[T]) -> (r: &T)
    requires
        list@.len() > 0,
    ensures
        list@.contains(*r),
        T::obeys_partial_cmp_spec() && obeys_partial_cmp_spec_properties::<T>() ==> none_greater(list@, *r),
{
    match crate::generics::largest(list) {
        Some(x) => x,
        None => {
            assert(false);
            &list[0]
        },
    }
}

} // verus!

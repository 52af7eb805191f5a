use vstd::prelude::*;

verus! {

/// Lightweight article summary used when listing remote articles.
pub struct ArticleSummary {
    pub id: String,
    pub title: String,
    pub url: String,
    pub published_at: String,
    pub tags: Vec<String>,
}

/// Internal representation of an article flowing through the pipeline.
#[derive(Debug, Clone)]
pub struct Article {
    /// Article title
    pub title: String,
    /// Article content in markdown format
    pub content: String,
    /// Tags/keywords for the article, insertion order preserved
    pub tags: Vec<String>,
    /// Optional canonical URL (original publication location)
    pub canonical_url: Option<String>,
    /// Publication status
    pub published: bool,
    /// Optional cover image URL
    pub cover_image: Option<String>,
    /// Optional article description/summary
    pub description: Option<String>,
}

impl Article {
    /// Create a new article with required fields; everything else is defaulted.
    pub fn new(title: String, content: String) -> (a: Article)
        ensures
            a.title@ == title@,
            a.content@ == content@,
            a.tags@ == Seq::<String>::empty(),
            a.canonical_url is None,
            a.published,
            a.cover_image is None,
            a.description is None,
    {
        Article {
            title,
            content,
            tags: Vec::new(),
            canonical_url: None,
            published: true,
            cover_image: None,
            description: None,
        }
    }

    /// Builder: replace the tags.
    pub fn with_tags(self, tags: Vec<String>) -> (a: Article)
        ensures
            a == (Article { tags, ..self }),
    {
        Article { tags, ..self }
    }

    /// Builder: set the canonical URL.
    pub fn with_canonical_url(self, url: String) -> (a: Article)
        ensures
            a == (Article { canonical_url: Some(url), ..self }),
    {
        Article { canonical_url: Some(url), ..self }
    }

    /// Builder: set the publication status.
    pub fn with_published(self, published: bool) -> (a: Article)
        ensures
            a == (Article { published, ..self }),
    {
        Article { published, ..self }
    }

    /// Builder: set the cover image URL.
    pub fn with_cover_image(self, url: String) -> (a: Article)
        ensures
            a == (Article { cover_image: Some(url), ..self }),
    {
        Article { cover_image: Some(url), ..self }
    }

    /// Builder: set the description.
    pub fn with_description(self, description: String) -> (a: Article)
        ensures
            a == (Article { description: Some(description), ..self }),
    {
        Article { description: Some(description), ..self }
    }
}

} // verus!

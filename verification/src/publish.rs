use vstd::prelude::*;

use crate::args::ContentFormat;
use crate::article::Article;
use crate::converter::ensure_title_in_content;
use crate::converter::html_render;
use crate::converter::markdown_to_html;
use crate::converter::byte_size;
use crate::converter::with_title_heading;
use crate::converter::MEDIUM_MAX_CONTENT_SIZE;
use crate::errors::PipelineError;

verus! {

/// Maximum number of tags that dev.to accepts.
pub const DEVTO_MAX_TAGS: usize = 4;

/// Maximum number of tags that Medium accepts.
pub const MEDIUM_MAX_TAGS: usize = 5;

/// Article data sent to dev.to when publishing.
pub struct DevToArticleData {
    pub title: String,
    pub body_markdown: String,
    pub published: bool,
    pub tags: Vec<String>,
    pub canonical_url: Option<String>,
    pub main_image: Option<String>,
    pub description: Option<String>,
    pub series: Option<String>,
}

/// Content dialect of a Medium publish request.
pub enum MediumContentFormat {
    Markdown,
    Html,
}

/// Publication status of a Medium publish request.
pub enum PublishStatus {
    Public,
    Draft,
    Unlisted,
}

/// Article data sent to Medium when publishing.
pub struct MediumPublishData {
    pub title: String,
    pub content_format: MediumContentFormat,
    pub content: String,
    pub canonical_url: Option<String>,
    pub tags: Vec<String>,
    pub publish_status: PublishStatus,
}

/// The first `max` tags, in order; fewer if there are fewer.
pub open spec fn truncated_tags(tags: Seq<String>, max: int) -> Seq<String> {
    if tags.len() <= max {
        tags
    } else {
        tags.take(max)
    }
}

/// Clone at most `max` tags, preserving order.
fn take_tags(tags: &Vec<String>, max: usize) -> (r: Vec<String>)
    ensures
        r@ == truncated_tags(tags@, max as int),
{
    let mut r: Vec<String> = Vec::new();
    let n = if tags.len() <= max {
        tags.len()
    } else {
        max
    };
    let mut i: usize = 0;
    while i < n
        invariant
            i <= n <= tags.len(),
            r@ == tags@.take(i as int),
        decreases n - i,
    {
        r.push(tags[i].clone());
        proof {
            assert(r@ =~= tags@.take(i + 1 as int));
        }
        i = i + 1;
    }
    proof {
        if tags@.len() <= max {
            assert(tags@.take(n as int) =~= tags@);
        }
    }
    r
}

fn clone_opt_string(o: &Option<String>) -> (r: Option<String>)
    ensures
        r == *o,
{
    match o {
        Some(s) => Some(s.clone()),
        None => None,
    }
}

/// Assemble the dev.to publish payload: the article's fields carried
/// over, with the tags cut to the platform's ceiling.
pub fn prepare_devto_publish(article: &Article) -> (r: DevToArticleData)
    ensures
        r.title@ == article.title@,
        r.body_markdown@ == article.content@,
        r.published == article.published,
        r.tags@ == truncated_tags(article.tags@, DEVTO_MAX_TAGS as int),
        r.canonical_url == article.canonical_url,
        r.main_image == article.cover_image,
        r.description == article.description,
        r.series is None,
{
    DevToArticleData {
        title: article.title.clone(),
        body_markdown: article.content.clone(),
        published: article.published,
        tags: take_tags(&article.tags, DEVTO_MAX_TAGS),
        canonical_url: clone_opt_string(&article.canonical_url),
        main_image: clone_opt_string(&article.cover_image),
        description: clone_opt_string(&article.description),
        series: None,
    }
}

/// Assemble the Medium publish payload: the tags are cut to the
/// platform's ceiling, the title heading is ensured in the content, and
/// for the HTML dialect the content is converted under the size ceiling.
pub fn prepare_medium_publish(article: &Article, format: &ContentFormat) -> (r: Result<
    MediumPublishData,
    PipelineError,
>)
    ensures
        ({
            let titled = with_title_heading(article.title@, article.content@);
            match r {
                Ok(p) => {
                    &&& p.title@ == article.title@
                    &&& p.canonical_url == article.canonical_url
                    &&& p.tags@ == truncated_tags(article.tags@, MEDIUM_MAX_TAGS as int)
                    &&& (p.publish_status is Public <==> article.published)
                    &&& (p.publish_status is Draft <==> !article.published)
                    &&& (match format {
                        ContentFormat::Markdown => p.content_format is Markdown && p.content@
                            == titled,
                        ContentFormat::Html => {
                            &&& p.content_format is Html
                            &&& p.content@ == html_render(titled)
                            &&& byte_size(titled) <= MEDIUM_MAX_CONTENT_SIZE
                            &&& byte_size(html_render(titled)) <= MEDIUM_MAX_CONTENT_SIZE
                        },
                    })
                },
                Err(e) => {
                    &&& format is Html
                    &&& {
                        ||| {
                            &&& byte_size(titled) > MEDIUM_MAX_CONTENT_SIZE
                            &&& e == (PipelineError::ContentTooLarge {
                                after_conversion: false,
                                size: byte_size(titled),
                                limit: MEDIUM_MAX_CONTENT_SIZE,
                            })
                        }
                        ||| {
                            &&& byte_size(titled) <= MEDIUM_MAX_CONTENT_SIZE
                            &&& byte_size(html_render(titled)) > MEDIUM_MAX_CONTENT_SIZE
                            &&& e == (PipelineError::ContentTooLarge {
                                after_conversion: true,
                                size: byte_size(html_render(titled)),
                                limit: MEDIUM_MAX_CONTENT_SIZE,
                            })
                        }
                    }
                },
            }
        }),
{
    let tags = take_tags(&article.tags, MEDIUM_MAX_TAGS);
    let publish_status = if article.published {
        PublishStatus::Public
    } else {
        PublishStatus::Draft
    };
    let content_with_title = ensure_title_in_content(article.title.as_str(), article.content.as_str());
    let (content_format, content) = match format {
        ContentFormat::Markdown => (MediumContentFormat::Markdown, content_with_title),
        ContentFormat::Html => {
            match markdown_to_html(content_with_title.as_str()) {
                Ok(html) => (MediumContentFormat::Html, html),
                Err(e) => {
                    return Err(e);
                },
            }
        },
    };
    Ok(
        MediumPublishData {
            title: article.title.clone(),
            content_format,
            content,
            canonical_url: clone_opt_string(&article.canonical_url),
            tags,
            publish_status,
        },
    )
}

} // verus!

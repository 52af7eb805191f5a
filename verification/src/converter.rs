use vstd::prelude::*;
use vstd::string::StringExecFns;

use crate::errors::PipelineError;
use crate::text::chars_of;
use crate::text::is_space;
use crate::text::is_space_char;
use crate::text::lemma_trimmed_skip;
use crate::text::trimmed_start;

verus! {

/// Size ceiling for content sent to the HTML-capable platform (1 MiB).
pub const MEDIUM_MAX_CONTENT_SIZE: usize = 1024 * 1024;

/// Whether the text, after leading-whitespace trim, starts with a
/// single-level heading marker followed by a space.
pub open spec fn starts_with_h1(s: Seq<char>) -> bool {
    let t = trimmed_start(s);
    t.len() >= 2 && t[0] == '#' && t[1] == ' '
}

/// The body with the title prepended as a single-level heading, unless
/// some single-level heading already leads the body.
pub open spec fn with_title_heading(title: Seq<char>, content: Seq<char>) -> Seq<char> {
    if starts_with_h1(content) {
        content
    } else {
        "# "@ + title + "\n\n"@ + content
    }
}

/// The number of bytes in the UTF-8 encoding of a character sequence,
/// as the machine-word count that `str::len` reports.
pub open spec fn byte_size(s: Seq<char>) -> usize {
    vstd::utf8::encode_utf8(s).len() as usize
}

/// What pulldown-cmark renders for a markdown document under this
/// pipeline's fixed option set; a pure function of the input text.
pub uninterp spec fn html_render(md: Seq<char>) -> Seq<char>;

/// Relies on pulldown_cmark::Parser::new_ext and
/// pulldown_cmark::html::push_html: renders markdown to HTML with
/// strikethrough, tables, footnotes, task lists and heading attributes
/// enabled and raw-HTML parsing left disabled; the output depends on the
/// input text alone.
#[verifier::external_body]
fn render_markdown_html(markdown: &str) -> (r: String)
    ensures
        r@ == html_render(markdown@),
{
    let mut options = pulldown_cmark::Options::empty();
    options.insert(pulldown_cmark::Options::ENABLE_STRIKETHROUGH);
    options.insert(pulldown_cmark::Options::ENABLE_TABLES);
    options.insert(pulldown_cmark::Options::ENABLE_FOOTNOTES);
    options.insert(pulldown_cmark::Options::ENABLE_TASKLISTS);
    options.insert(pulldown_cmark::Options::ENABLE_HEADING_ATTRIBUTES);
    let parser = pulldown_cmark::Parser::new_ext(markdown, options);
    let mut html_output = String::new();
    pulldown_cmark::html::push_html(&mut html_output, parser);
    html_output
}

/// Convert markdown to HTML, enforcing the size ceiling on the source
/// before conversion and on the rendered output after it.
pub fn markdown_to_html(markdown: &str) -> (r: Result<String, PipelineError>)
    ensures
        match r {
            Ok(h) => {
                &&& byte_size(markdown@) <= MEDIUM_MAX_CONTENT_SIZE
                &&& h@ == html_render(markdown@)
                &&& byte_size(h@) <= MEDIUM_MAX_CONTENT_SIZE
            },
            Err(e) => {
                ||| {
                    &&& byte_size(markdown@) > MEDIUM_MAX_CONTENT_SIZE
                    &&& e == (PipelineError::ContentTooLarge {
                        after_conversion: false,
                        size: byte_size(markdown@),
                        limit: MEDIUM_MAX_CONTENT_SIZE,
                    })
                }
                ||| {
                    &&& byte_size(markdown@) <= MEDIUM_MAX_CONTENT_SIZE
                    &&& byte_size(html_render(markdown@)) > MEDIUM_MAX_CONTENT_SIZE
                    &&& e == (PipelineError::ContentTooLarge {
                        after_conversion: true,
                        size: byte_size(html_render(markdown@)),
                        limit: MEDIUM_MAX_CONTENT_SIZE,
                    })
                }
            },
        },
{
    if markdown.len() > MEDIUM_MAX_CONTENT_SIZE {
        return Err(
            PipelineError::ContentTooLarge {
                after_conversion: false,
                size: markdown.len(),
                limit: MEDIUM_MAX_CONTENT_SIZE,
            },
        );
    }
    let html_output = render_markdown_html(markdown);
    if html_output.as_str().len() > MEDIUM_MAX_CONTENT_SIZE {
        let size = html_output.as_str().len();
        return Err(
            PipelineError::ContentTooLarge {
                after_conversion: true,
                size,
                limit: MEDIUM_MAX_CONTENT_SIZE,
            },
        );
    }
    Ok(html_output)
}

/// Prepend the title as a single-level heading unless the body, after
/// leading-whitespace trim, already starts with one; in that case the
/// body is returned unchanged, whatever the heading says.
pub fn ensure_title_in_content(title: &str, content: &str) -> (r: String)
    ensures
        r@ == with_title_heading(title@, content@),
{
    let cs = chars_of(content);
    let mut i: usize = 0;
    while i < cs.len() && is_space(cs[i])
        invariant
            i <= cs.len(),
            cs@ == content@,
            forall|j: int| 0 <= j < i ==> is_space_char(content@[j]),
        decreases cs.len() - i,
    {
        i = i + 1;
    }
    proof {
        lemma_trimmed_skip(content@, i as int);
        if i < cs.len() {
            assert(!is_space_char(content@[i as int]));
            assert(content@.skip(i as int)[0] == content@[i as int]);
            assert(trimmed_start(content@.skip(i as int)) == content@.skip(i as int));
        } else {
            assert(content@.skip(i as int) =~= Seq::<char>::empty());
        }
    }
    let has_h1 = i < cs.len() && cs[i] == '#' && i + 1 < cs.len() && cs[i + 1] == ' ';
    proof {
        if i + 1 < cs.len() {
            assert(content@.skip(i as int)[1] == content@[i as int + 1]);
        }
        assert(has_h1 == starts_with_h1(content@));
    }
    if has_h1 {
        content.to_owned()
    } else {
        let mut r = String::new();
        r.append("# ");
        r.append(title);
        r.append("\n\n");
        r.append(content);
        assert(r@ =~= "# "@ + title@ + "\n\n"@ + content@);
        r
    }
}

} // verus!

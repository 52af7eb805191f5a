use vstd::prelude::*;

use crate::article::Article;
use crate::errors::PipelineError;
use crate::text::chars_of;
use crate::text::copy_range;
use crate::text::string_from_chars;

verus! {

/// The two destination platforms, a closed set: each has its own tag
/// ceiling, markup transform and URL policy.
#[derive(Debug, Clone, Copy, PartialEq, Eq, Structural)]
pub enum Platform {
    DevTo,
    Medium,
}

/// Whether position `j` closes a liquid directive that opens at
/// position 0: a `%}` pair reached without crossing a line break.
pub open spec fn is_liquid_close(s: Seq<char>, j: int) -> bool {
    &&& 2 <= j
    &&& j + 2 <= s.len()
    &&& s[j] == '%'
    &&& s[j + 1] == '}'
    &&& forall|k: int| 2 <= k < j ==> s[k] != '\n'
}

/// Whether position `j` is the nearest such closing pair.
pub open spec fn is_first_liquid_close(s: Seq<char>, j: int) -> bool {
    &&& is_liquid_close(s, j)
    &&& forall|k: int| 2 <= k < j ==> !((#[trigger] s[k]) == '%' && s[k + 1] == '}')
}

pub open spec fn has_liquid_close(s: Seq<char>) -> bool {
    exists|j: int| is_first_liquid_close(s, j)
}

/// The text with every single-line `{% ... %}` directive removed,
/// scanning left to right and always taking the nearest closing pair.
pub open spec fn strip_liquid(s: Seq<char>) -> Seq<char>
    decreases s.len(),
{
    if s.len() < 2 {
        s
    } else if s[0] == '{' && s[1] == '%' && has_liquid_close(s) {
        let j = choose|j: int| is_first_liquid_close(s, j);
        strip_liquid(s.skip(j + 2))
    } else {
        seq![s[0]] + strip_liquid(s.drop_first())
    }
}

proof fn lemma_liquid_close_unique(s: Seq<char>, j1: int, j2: int)
    requires
        is_first_liquid_close(s, j1),
        is_first_liquid_close(s, j2),
    ensures
        j1 == j2,
{
    if j1 < j2 {
        assert(s[j1] == '%' && s[j1 + 1] == '}');
    } else if j2 < j1 {
        assert(s[j2] == '%' && s[j2 + 1] == '}');
    }
}

proof fn lemma_strip_liquid_copy(t: Seq<char>)
    requires
        t.len() > 0,
        !(t.len() >= 2 && t[0] == '{' && t[1] == '%' && has_liquid_close(t)),
    ensures
        strip_liquid(t) == seq![t[0]] + strip_liquid(t.drop_first()),
{
    if t.len() < 2 {
        assert(t.drop_first() =~= Seq::<char>::empty());
        assert(seq![t[0]] + strip_liquid(t.drop_first()) =~= t);
    }
}

proof fn lemma_strip_liquid_match(t: Seq<char>, j: int)
    requires
        t.len() >= 2,
        t[0] == '{',
        t[1] == '%',
        is_first_liquid_close(t, j),
    ensures
        strip_liquid(t) == strip_liquid(t.skip(j + 2)),
{
    let j2 = choose|j2: int| is_first_liquid_close(t, j2);
    lemma_liquid_close_unique(t, j, j2);
}

/// Remove every liquid templating directive (`{% ... %}` on one line)
/// from the content.
pub fn remove_liquid_tags(content: &str) -> (r: String)
    ensures
        r@ == strip_liquid(content@),
{
    let cs = chars_of(content);
    let ghost s = content@;
    let mut out: Vec<char> = Vec::new();
    let mut i: usize = 0;
    proof {
        assert(s.skip(0) =~= s);
        assert(out@ + strip_liquid(s) =~= strip_liquid(s));
    }
    while i < cs.len()
        invariant
            i <= cs.len(),
            cs@ == s,
            strip_liquid(s) == out@ + strip_liquid(s.skip(i as int)),
        decreases cs.len() - i,
    {
        let ghost t = s.skip(i as int);
        if cs[i] == '{' && i + 1 < cs.len() && cs[i + 1] == '%' {
            // look for the nearest closing pair on the same line
            let mut j: usize = i + 2;
            while j < cs.len() - 1 && cs[j] != '\n' && !(cs[j] == '%' && cs[j + 1] == '}')
                invariant
                    i + 2 <= j <= cs.len(),
                    cs@ == s,
                    i + 1 < cs.len(),
                    forall|k: int|
                        i + 2 <= k < j ==> !((#[trigger] s[k]) == '%' && s[k + 1] == '}') && s[k]
                            != '\n',
                decreases cs.len() - j,
            {
                j = j + 1;
            }
            let found = j < cs.len() - 1 && cs[j] == '%' && cs[j + 1] == '}';
            if found {
                proof {
                    let jl = j - i;
                    assert forall|k: int| 2 <= k < jl implies (#[trigger] t[k]) != '\n' && !(t[k]
                        == '%' && t[k + 1] == '}') by {
                        assert(t[k] == s[i + k]);
                        assert(t[k + 1] == s[i + k + 1]);
                    }
                    assert(t[jl] == s[j as int] && t[jl + 1] == s[j as int + 1]);
                    assert(is_first_liquid_close(t, jl));
                    lemma_strip_liquid_match(t, jl);
                    assert(t.skip(jl + 2) =~= s.skip(j as int + 2));
                }
                i = j + 2;
            } else {
                // no closing pair on this line: the opener is literal text
                proof {
                    assert forall|jl: int| !is_first_liquid_close(t, jl) by {
                        if is_first_liquid_close(t, jl) {
                            assert(2 <= jl && jl + 2 <= t.len());
                            assert(s[i + jl] == '%' && s[i + jl + 1] == '}');
                            if j < cs.len() - 1 {
                                // the scan stopped on a line break at j
                                assert(s[j as int] == '\n');
                                if i + jl > j {
                                    assert(t[j - i] == '\n');
                                } else {
                                    assert(i + 2 <= i + jl <= j);
                                }
                            } else {
                                // the scan ran off the end of the text
                                assert(i + jl <= cs.len() - 2);
                            }
                        }
                    }
                    lemma_strip_liquid_copy(t);
                    assert(t.drop_first() =~= s.skip(i as int + 1));
                    assert((out@ + seq![s[i as int]]) + strip_liquid(s.skip(i as int + 1)) =~= out@
                        + (seq![s[i as int]] + strip_liquid(s.skip(i as int + 1))));
                }
                out.push(cs[i]);
                i = i + 1;
            }
        } else {
            proof {
                if t.len() >= 2 && t[0] == '{' && t[1] == '%' {
                    assert(s[i as int] == '{' && s[i as int + 1] == '%');
                    assert(false);
                }
                lemma_strip_liquid_copy(t);
                assert(t.drop_first() =~= s.skip(i as int + 1));
                assert((out@ + seq![s[i as int]]) + strip_liquid(s.skip(i as int + 1)) =~= out@
                    + (seq![s[i as int]] + strip_liquid(s.skip(i as int + 1))));
            }
            out.push(cs[i]);
            i = i + 1;
        }
    }
    proof {
        assert(s.skip(i as int) =~= Seq::<char>::empty());
        assert(out@ =~= strip_liquid(s));
    }
    string_from_chars(&out)
}

/// Whether positions `m` and `c` delimit the image reference that opens
/// at position 0 with `![`: `m` is the nearest `](` pair reached without
/// crossing a line break, and `c` the nearest `)` after it, likewise on
/// the same line.
pub open spec fn is_img_match(s: Seq<char>, m: int, c: int) -> bool {
    &&& 2 <= m
    &&& m + 2 <= s.len()
    &&& s[m] == ']'
    &&& s[m + 1] == '('
    &&& forall|k: int| 2 <= k < m ==> !((#[trigger] s[k]) == ']' && s[k + 1] == '(') && s[k] != '\n'
    &&& m + 2 <= c < s.len()
    &&& s[c] == ')'
    &&& forall|k: int| m + 2 <= k < c ==> (#[trigger] s[k]) != ')' && s[k] != '\n'
}

pub open spec fn has_img_match(s: Seq<char>) -> bool {
    exists|m: int, c: int| is_img_match(s, m, c)
}

/// Every embedded image reference `![alt](url)` of the text, in order of
/// occurrence: each entry carries the URL and the whole matched span.
pub open spec fn image_refs(s: Seq<char>) -> Seq<(Seq<char>, Seq<char>)>
    decreases s.len(),
{
    if s.len() < 2 {
        Seq::empty()
    } else if s[0] == '!' && s[1] == '[' && has_img_match(s) {
        let (m, c) = choose|m: int, c: int| is_img_match(s, m, c);
        seq![(s.subrange(m + 2, c), s.subrange(0, c + 1))] + image_refs(s.skip(c + 1))
    } else {
        image_refs(s.drop_first())
    }
}

/// Whether a URL is absolute: it carries an explicit scheme prefix.
pub open spec fn is_absolute_url(u: Seq<char>) -> bool {
    ||| (u.len() >= 7 && u[0] == 'h' && u[1] == 't' && u[2] == 't' && u[3] == 'p' && u[4] == ':'
        && u[5] == '/' && u[6] == '/')
    ||| (u.len() >= 8 && u[0] == 'h' && u[1] == 't' && u[2] == 't' && u[3] == 'p' && u[4] == 's'
        && u[5] == ':' && u[6] == '/' && u[7] == '/')
}

/// Whether entry `k` of the image references is the first whose URL is
/// not absolute, carrying that URL and the matched span.
pub open spec fn first_bad_image(s: Seq<char>, k: int, url: Seq<char>, excerpt: Seq<char>) -> bool {
    &&& 0 <= k < image_refs(s).len()
    &&& url == image_refs(s)[k].0
    &&& excerpt == image_refs(s)[k].1
    &&& !is_absolute_url(url)
    &&& forall|j: int| 0 <= j < k ==> is_absolute_url(#[trigger] image_refs(s)[j].0)
}

/// Whether every embedded image reference of the text uses an absolute URL.
pub open spec fn all_images_absolute(s: Seq<char>) -> bool {
    forall|k: int| 0 <= k < image_refs(s).len() ==> is_absolute_url(#[trigger] image_refs(s)[k].0)
}

proof fn lemma_img_match_unique(s: Seq<char>, m1: int, c1: int, m2: int, c2: int)
    requires
        is_img_match(s, m1, c1),
        is_img_match(s, m2, c2),
    ensures
        m1 == m2,
        c1 == c2,
{
    if m1 < m2 {
        assert(s[m1] == ']' && s[m1 + 1] == '(');
    } else if m2 < m1 {
        assert(s[m2] == ']' && s[m2 + 1] == '(');
    }
    if c1 < c2 {
        assert(s[c1] == ')');
    } else if c2 < c1 {
        assert(s[c2] == ')');
    }
}

proof fn lemma_image_refs_copy(t: Seq<char>)
    requires
        t.len() > 0,
        !(t.len() >= 2 && t[0] == '!' && t[1] == '[' && has_img_match(t)),
    ensures
        image_refs(t) == image_refs(t.drop_first()),
{
    if t.len() < 2 {
        assert(t.drop_first() =~= Seq::<char>::empty());
    }
}

proof fn lemma_image_refs_match(t: Seq<char>, m: int, c: int)
    requires
        t.len() >= 2,
        t[0] == '!',
        t[1] == '[',
        is_img_match(t, m, c),
    ensures
        image_refs(t) == seq![(t.subrange(m + 2, c), t.subrange(0, c + 1))] + image_refs(
            t.skip(c + 1),
        ),
{
    let (m2, c2) = choose|m2: int, c2: int| is_img_match(t, m2, c2);
    lemma_img_match_unique(t, m, c, m2, c2);
}

/// Whether a URL, given as characters, starts with `http://` or `https://`.
fn is_absolute(u: &Vec<char>) -> (r: bool)
    ensures
        r == is_absolute_url(u@),
{
    if u.len() >= 7 && u[0] == 'h' && u[1] == 't' && u[2] == 't' && u[3] == 'p' {
        if u[4] == ':' && u[5] == '/' && u[6] == '/' {
            true
        } else {
            u.len() >= 8 && u[4] == 's' && u[5] == ':' && u[6] == '/' && u[7] == '/'
        }
    } else {
        false
    }
}

/// Check that every embedded image reference uses an absolute URL; the
/// first violation is reported with the offending URL and the matched
/// image reference.
#[verifier::rlimit(100)]
#[verifier::spinoff_prover]
pub fn validate_image_urls(content: &str) -> (r: Result<(), PipelineError>)
    ensures
        r is Ok <==> all_images_absolute(content@),
        r matches Err(e) ==> e matches PipelineError::InvalidImageUrl { url, excerpt } && exists|
            k: int,
        | #[trigger] first_bad_image(content@, k, url@, excerpt@),
{
    let cs = chars_of(content);
    let ghost s = content@;
    let ghost mut seen: Seq<(Seq<char>, Seq<char>)> = Seq::empty();
    let mut i: usize = 0;
    let mut bad: Option<(String, String)> = None;
    let ghost mut bad_k: int = 0;
    proof {
        assert(s.skip(0) =~= s);
        assert(seen + image_refs(s) =~= image_refs(s));
    }
    while i < cs.len()
        invariant_except_break
            bad is None,
        invariant
            i <= cs.len(),
            cs@ == s,
            s == content@,
            image_refs(s) == seen + image_refs(s.skip(i as int)),
            forall|k: int| 0 <= k < seen.len() ==> is_absolute_url((#[trigger] seen[k]).0),
        ensures
            bad is None ==> i == cs.len() && image_refs(s) == seen + image_refs(s.skip(i as int))
                && (forall|k: int| 0 <= k < seen.len() ==> is_absolute_url((#[trigger] seen[k]).0)),
            bad matches Some(p) ==> first_bad_image(content@, bad_k, p.0@, p.1@),
        decreases cs.len() - i,
    {
        let ghost t = s.skip(i as int);
        if cs[i] == '!' && i + 1 < cs.len() && cs[i + 1] == '[' {
            // nearest `](` pair on the same line
            let mut j: usize = i + 2;
            while j < cs.len() - 1 && cs[j] != '\n' && !(cs[j] == ']' && cs[j + 1] == '(')
                invariant
                    i + 2 <= j <= cs.len(),
                    cs@ == s,
                    i + 1 < cs.len(),
                    forall|k: int|
                        i + 2 <= k < j ==> !((#[trigger] s[k]) == ']' && s[k + 1] == '(') && s[k]
                            != '\n',
                decreases cs.len() - j,
            {
                j = j + 1;
            }
            let mid_found = j < cs.len() - 1 && cs[j] == ']' && cs[j + 1] == '(';
            let mut close_found = false;
            let mut k: usize = 0;
            if mid_found {
                // nearest `)` after the pair, still on the same line
                k = j + 2;
                while k < cs.len() && cs[k] != '\n' && cs[k] != ')'
                    invariant
                        j + 2 <= k <= cs.len(),
                        cs@ == s,
                        j + 2 <= cs.len(),
                        forall|q: int| j + 2 <= q < k ==> (#[trigger] s[q]) != ')' && s[q] != '\n',
                    decreases cs.len() - k,
                {
                    k = k + 1;
                }
                close_found = k < cs.len() && cs[k] == ')';
            }
            if mid_found && close_found {
                let ghost m = j - i;
                let ghost c = k - i;
                proof {
                    assert forall|q: int| 2 <= q < m implies !((#[trigger] t[q]) == ']' && t[q + 1]
                        == '(') && t[q] != '\n' by {
                        assert(t[q] == s[i + q]);
                        assert(t[q + 1] == s[i + q + 1]);
                    }
                    assert forall|q: int| m + 2 <= q < c implies (#[trigger] t[q]) != ')' && t[q]
                        != '\n' by {
                        assert(t[q] == s[i + q]);
                    }
                    assert(t[m] == s[j as int] && t[m + 1] == s[j as int + 1]);
                    assert(t[c] == s[k as int]);
                    assert(is_img_match(t, m, c));
                    lemma_image_refs_match(t, m, c);
                    assert(t.skip(c + 1) =~= s.skip(k as int + 1));
                    assert(t.subrange(m + 2, c) =~= s.subrange(j as int + 2, k as int));
                    assert(t.subrange(0, c + 1) =~= s.subrange(i as int, k as int + 1));
                }
                let url = copy_range(&cs, j + 2, k);
                if is_absolute(&url) {
                    proof {
                        let entry = (t.subrange(m + 2, c), t.subrange(0, c + 1));
                        assert((seen + (seq![entry] + image_refs(t.skip(c + 1)))) =~= (seen.push(
                            entry,
                        ) + image_refs(t.skip(c + 1))));
                        seen = seen.push(entry);
                    }
                    i = k + 1;
                } else {
                    let excerpt_chars = copy_range(&cs, i, k + 1);
                    let url_string = crate::text::string_from_chars(&url);
                    let excerpt_string = crate::text::string_from_chars(&excerpt_chars);
                    proof {
                        let idx = seen.len() as int;
                        let entry = (t.subrange(m + 2, c), t.subrange(0, c + 1));
                        let rest = image_refs(t.skip(c + 1));
                        assert(image_refs(s) == seen + (seq![entry] + rest));
                        assert((seq![entry] + rest)[0] == entry);
                        assert(image_refs(s)[idx] == entry);
                        assert(url@ == image_refs(s)[idx].0);
                        assert(excerpt_chars@ == image_refs(s)[idx].1);
                        assert(0 <= idx < image_refs(s).len());
                        assert forall|jj: int| 0 <= jj < idx implies is_absolute_url(
                            (#[trigger] image_refs(s)[jj]).0,
                        ) by {
                            assert(image_refs(s)[jj] == seen[jj]);
                        }
                        bad_k = idx;
                        assert(first_bad_image(content@, idx, url_string@, excerpt_string@));
                    }
                    bad = Some((url_string, excerpt_string));
                    break;
                }
            } else {
                // no full image reference starts here: the `![` is literal
                proof {
                    assert forall|ml: int, cl: int| !is_img_match(t, ml, cl) by {
                        if is_img_match(t, ml, cl) {
                            assert(s[i + ml] == ']' && s[i + ml + 1] == '(');
                            if !mid_found {
                                if j < cs.len() - 1 {
                                    assert(s[j as int] == '\n');
                                    if i + ml > j {
                                        assert(t[j - i] == '\n');
                                    } else {
                                        assert(i + 2 <= i + ml <= j);
                                    }
                                } else {
                                    assert(i + ml <= cs.len() - 2);
                                }
                            } else {
                                // the pair was found but no close: ml must be that pair
                                let m = j - i;
                                if ml < m {
                                    assert(i + 2 <= i + ml < j);
                                } else if ml > m {
                                    assert(t[m] == ']' && t[m + 1] == '(');
                                } else {
                                    assert(s[i + cl] == ')');
                                    if k < cs.len() {
                                        assert(s[k as int] == '\n');
                                        if i + cl > k {
                                            assert(t[k - i] == '\n');
                                        } else {
                                            assert(j + 2 <= i + cl <= k);
                                        }
                                    } else {
                                        assert(j + 2 <= i + cl < k);
                                    }
                                }
                            }
                        }
                    }
                    lemma_image_refs_copy(t);
                    assert(t.drop_first() =~= s.skip(i as int + 1));
                }
                i = i + 1;
            }
        } else {
            proof {
                if t.len() >= 2 && t[0] == '!' && t[1] == '[' {
                    assert(s[i as int] == '!' && s[i as int + 1] == '[');
                    assert(false);
                }
                lemma_image_refs_copy(t);
                assert(t.drop_first() =~= s.skip(i as int + 1));
            }
            i = i + 1;
        }
    }
    match bad {
        None => {
            proof {
                assert(s.skip(i as int) =~= Seq::<char>::empty());
                assert(image_refs(s) =~= seen);
                assert forall|k: int| 0 <= k < image_refs(s).len() implies is_absolute_url(
                    (#[trigger] image_refs(s)[k]).0,
                ) by {
                    assert(image_refs(s)[k] == seen[k]);
                }
                assert(all_images_absolute(content@));
            }
            Ok(())
        },
        Some((url_string, excerpt_string)) => {
            let e = PipelineError::InvalidImageUrl { url: url_string, excerpt: excerpt_string };
            proof {
                assert(first_bad_image(content@, bad_k, url_string@, excerpt_string@));
                assert(!is_absolute_url(image_refs(content@)[bad_k].0));
                assert(!all_images_absolute(content@));
                assert(e matches PipelineError::InvalidImageUrl { url, excerpt } && url
                    == url_string && excerpt == excerpt_string);
                assert(e matches PipelineError::InvalidImageUrl { url, excerpt } && exists|k: int|
                    #[trigger] first_bad_image(content@, k, url@, excerpt@));
            }
            Err(e)
        },
    }
}

/// Whether two articles agree on every field except the content.
pub open spec fn same_except_content(a: Article, b: Article) -> bool {
    &&& a.title == b.title
    &&& a.tags == b.tags
    &&& a.canonical_url == b.canonical_url
    &&& a.published == b.published
    &&& a.cover_image == b.cover_image
    &&& a.description == b.description
}

/// The failure that dev.to sanitization reports: the tag ceiling is
/// checked first, then the image URLs of the unmodified content.
pub open spec fn devto_err_spec(pre: Article, e: PipelineError) -> bool {
    if pre.tags@.len() > 4 {
        e == (PipelineError::TooManyTags {
            destination: Platform::DevTo,
            found: pre.tags@.len() as usize,
            ceiling: 4,
        })
    } else {
        e matches PipelineError::InvalidImageUrl { url, excerpt } && exists|k: int|
            #[trigger] first_bad_image(pre.content@, k, url@, excerpt@)
    }
}

/// The failure that Medium sanitization reports: the tag ceiling is
/// checked first, then the image URLs of the liquid-stripped content.
pub open spec fn medium_err_spec(pre: Article, e: PipelineError) -> bool {
    if pre.tags@.len() > 5 {
        e == (PipelineError::TooManyTags {
            destination: Platform::Medium,
            found: pre.tags@.len() as usize,
            ceiling: 5,
        })
    } else {
        e matches PipelineError::InvalidImageUrl { url, excerpt } && exists|k: int|
            #[trigger] first_bad_image(strip_liquid(pre.content@), k, url@, excerpt@)
    }
}

/// The sanitization contract, per destination. Success is owed exactly
/// when the destination's constraints hold; the mutation is
/// transactional: on failure the article is left untouched.
pub open spec fn sanitize_post(
    platform: Platform,
    pre: Article,
    post: Article,
    r: Result<(), PipelineError>,
) -> bool {
    match platform {
        Platform::DevTo => {
            &&& (r is Ok <==> pre.tags@.len() <= 4 && all_images_absolute(pre.content@))
            &&& post == pre
            &&& (r matches Err(e) ==> devto_err_spec(pre, e))
        },
        Platform::Medium => {
            &&& (r is Ok <==> pre.tags@.len() <= 5 && all_images_absolute(
                strip_liquid(pre.content@),
            ))
            &&& (r is Ok ==> post.content@ == strip_liquid(pre.content@) && same_except_content(
                post,
                pre,
            ))
            &&& (r is Err ==> post == pre)
            &&& (r matches Err(e) ==> medium_err_spec(pre, e))
        },
    }
}

/// Sanitize for dev.to: at most 4 tags, and every embedded image URL
/// must be absolute. The content is not transformed.
pub fn sanitize_for_devto(article: &mut Article) -> (r: Result<(), PipelineError>)
    ensures
        sanitize_post(Platform::DevTo, *old(article), *final(article), r),
{
    if article.tags.len() > 4 {
        return Err(
            PipelineError::TooManyTags {
                destination: Platform::DevTo,
                found: article.tags.len(),
                ceiling: 4,
            },
        );
    }
    validate_image_urls(article.content.as_str())
}

/// Sanitize for Medium: at most 5 tags, liquid templating directives are
/// stripped from the content, and every embedded image URL of the
/// stripped content must be absolute. The strip is committed only once
/// every check has passed.
pub fn sanitize_for_medium(article: &mut Article) -> (r: Result<(), PipelineError>)
    ensures
        sanitize_post(Platform::Medium, *old(article), *final(article), r),
{
    if article.tags.len() > 5 {
        return Err(
            PipelineError::TooManyTags {
                destination: Platform::Medium,
                found: article.tags.len(),
                ceiling: 5,
            },
        );
    }
    let stripped = remove_liquid_tags(article.content.as_str());
    match validate_image_urls(stripped.as_str()) {
        Ok(()) => {
            article.content = stripped;
            Ok(())
        },
        Err(e) => Err(e),
    }
}

/// Sanitize an article in place for the given destination platform.
pub fn sanitize_for_platform(article: &mut Article, platform: Platform) -> (r: Result<
    (),
    PipelineError,
>)
    ensures
        sanitize_post(platform, *old(article), *final(article), r),
{
    match platform {
        Platform::DevTo => sanitize_for_devto(article),
        Platform::Medium => sanitize_for_medium(article),
    }
}

} // verus!
